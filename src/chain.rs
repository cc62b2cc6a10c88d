use crate::heat_bath::HeatBath;
use crate::random::RandomSource;
use vstd::prelude::*;

verus! {

/// The largest ring this library handles: every sum over it fits an `i32`.
pub const MAX_SITES: usize = 0x7fff_ffff;

/// A spin is `+1` or `-1`.
pub open spec fn is_spin(x: i8) -> bool {
    x == 1 || x == -1
}

/// Every entry of `s` is a spin.
pub open spec fn all_spins(s: Seq<i8>) -> bool {
    forall|i: int| 0 <= i < s.len() ==> is_spin(#[trigger] s[i])
}

/// The left neighbour of site `i` on a ring of `n` sites.
pub open spec fn left_of(n: int, i: int) -> int {
    if i == 0 {
        n - 1
    } else {
        i - 1
    }
}

/// The right neighbour of site `i` on a ring of `n` sites.
pub open spec fn right_of(n: int, i: int) -> int {
    if i == n - 1 {
        0
    } else {
        i + 1
    }
}

/// The new spin of a site whose neighbours hold `l` and `r`, given its draw.
pub open spec fn updated_spin(bath: HeatBath, l: i8, r: i8, draw: u64) -> i8 {
    if (draw as int) < bath.threshold_spec(l + r) as int {
        1i8
    } else {
        -1i8
    }
}

/// The ring after sites `0..k` have been updated in order, each from the
/// current contents of its neighbours and with its own draw.
pub open spec fn sweep_prefix(s: Seq<i8>, bath: HeatBath, draws: Seq<u64>, k: nat) -> Seq<i8>
    decreases k,
{
    if k == 0 {
        s
    } else {
        let prev = sweep_prefix(s, bath, draws, (k - 1) as nat);
        let i = k - 1;
        let n = s.len() as int;
        prev.update(
            i,
            updated_spin(bath, prev[left_of(n, i)], prev[right_of(n, i)], draws[i]),
        )
    }
}

/// One full in-place sweep: sites `0..n` updated in index order, site `i`
/// using `draws[i]`.
pub open spec fn sweep_spec(s: Seq<i8>, bath: HeatBath, draws: Seq<u64>) -> Seq<i8> {
    sweep_prefix(s, bath, draws, s.len())
}

/// The magnetization: the sum of all spins.
pub open spec fn spin_sum(s: Seq<i8>) -> int
    decreases s.len(),
{
    if s.len() == 0 {
        0
    } else {
        spin_sum(s.drop_last()) + s.last()
    }
}

/// Every spin reversed.
pub open spec fn flipped(s: Seq<i8>) -> Seq<i8> {
    Seq::new(s.len(), |i: int| (-s[i]) as i8)
}

/// Every draw reflected, `d` to `2^64 - 1 - d`; the reflected stream is as
/// uniform as the original.
pub open spec fn reflected(d: Seq<u64>) -> Seq<u64> {
    Seq::new(d.len(), |i: int| (u64::MAX - d[i]) as u64)
}

/// Several sweeps in a row, the `t`-th using `rounds[t]` as its draws.
pub open spec fn sweeps_spec(s: Seq<i8>, bath: HeatBath, rounds: Seq<Seq<u64>>) -> Seq<i8>
    decreases rounds.len(),
{
    if rounds.len() == 0 {
        s
    } else {
        sweep_spec(sweeps_spec(s, bath, rounds.drop_last()), bath, rounds.last())
    }
}

/// Each round of draws reflected.
pub open spec fn reflected_rounds(rounds: Seq<Seq<u64>>) -> Seq<Seq<u64>> {
    Seq::new(rounds.len(), |t: int| reflected(rounds[t]))
}

proof fn lemma_updated_spin_flip(bath: HeatBath, l: i8, r: i8, d: u64)
    requires
        bath.is_symmetric(),
        is_spin(l),
        is_spin(r),
    ensures
        is_spin(updated_spin(bath, l, r, d)),
        updated_spin(bath, (-l) as i8, (-r) as i8, (u64::MAX - d) as u64)
            == -updated_spin(bath, l, r, d),
{
}

proof fn lemma_sweep_prefix_flip(s: Seq<i8>, bath: HeatBath, draws: Seq<u64>, k: nat)
    requires
        all_spins(s),
        draws.len() == s.len(),
        k <= s.len(),
        bath.is_symmetric(),
    ensures
        sweep_prefix(s, bath, draws, k).len() == s.len(),
        all_spins(sweep_prefix(s, bath, draws, k)),
        sweep_prefix(flipped(s), bath, reflected(draws), k) == flipped(
            sweep_prefix(s, bath, draws, k),
        ),
    decreases k,
{
    if k > 0 {
        lemma_sweep_prefix_flip(s, bath, draws, (k - 1) as nat);
        let prev = sweep_prefix(s, bath, draws, (k - 1) as nat);
        let n = s.len() as int;
        let i = k - 1;
        let l = prev[left_of(n, i)];
        let r = prev[right_of(n, i)];
        lemma_updated_spin_flip(bath, l, r, draws[i]);
        let u = updated_spin(bath, l, r, draws[i]);
        assert(flipped(prev).update(i, (-u) as i8) =~= flipped(prev.update(i, u)));
        assert(all_spins(prev.update(i, u)));
    }
}

/// Without an external field the sweep has the spin-flip symmetry: sweeping
/// the reversed ring with reflected draws gives the reversed result, and
/// reversing negates the magnetization. Reflected draws are as likely as the
/// originals, so runs from all-up and from all-down have opposite
/// magnetizations with the same distribution.
pub proof fn lemma_sweep_flip_symmetry(s: Seq<i8>, bath: HeatBath, draws: Seq<u64>)
    requires
        all_spins(s),
        draws.len() == s.len(),
        bath.is_symmetric(),
    ensures
        sweep_spec(flipped(s), bath, reflected(draws)) == flipped(sweep_spec(s, bath, draws)),
        spin_sum(flipped(s)) == -spin_sum(s),
        all_spins(sweep_spec(s, bath, draws)),
        sweep_spec(s, bath, draws).len() == s.len(),
{
    lemma_sweep_prefix_flip(s, bath, draws, s.len());
    lemma_spin_sum_flip(s);
}

/// Reversing every spin negates the magnetization.
pub proof fn lemma_spin_sum_flip(s: Seq<i8>)
    requires
        all_spins(s),
    ensures
        spin_sum(flipped(s)) == -spin_sum(s),
    decreases s.len(),
{
    if s.len() > 0 {
        assert(flipped(s).drop_last() =~= flipped(s.drop_last()));
        lemma_spin_sum_flip(s.drop_last());
    }
}

/// The magnetization is at most the number of sites in size.
pub proof fn lemma_spin_sum_bounded(s: Seq<i8>)
    requires
        all_spins(s),
    ensures
        -(s.len() as int) <= spin_sum(s) <= s.len(),
    decreases s.len(),
{
    if s.len() > 0 {
        assert(all_spins(s.drop_last()));
        lemma_spin_sum_bounded(s.drop_last());
        assert(is_spin(s[s.len() - 1]));
    }
}

/// The symmetry carries over any number of sweeps: a zero-field burn-in from
/// the reversed ring, with every round of draws reflected, ends in the
/// reversed ring, with the opposite magnetization.
pub proof fn lemma_sweeps_flip_symmetry(s: Seq<i8>, bath: HeatBath, rounds: Seq<Seq<u64>>)
    requires
        all_spins(s),
        forall|t: int| 0 <= t < rounds.len() ==> (#[trigger] rounds[t]).len() == s.len(),
        bath.is_symmetric(),
    ensures
        sweeps_spec(flipped(s), bath, reflected_rounds(rounds)) == flipped(
            sweeps_spec(s, bath, rounds),
        ),
        spin_sum(sweeps_spec(flipped(s), bath, reflected_rounds(rounds))) == -spin_sum(
            sweeps_spec(s, bath, rounds),
        ),
        all_spins(sweeps_spec(s, bath, rounds)),
        sweeps_spec(s, bath, rounds).len() == s.len(),
    decreases rounds.len(),
{
    if rounds.len() > 0 {
        let init = rounds.drop_last();
        lemma_sweeps_flip_symmetry(s, bath, init);
        assert(reflected_rounds(rounds).drop_last() =~= reflected_rounds(init));
        let mid = sweeps_spec(s, bath, init);
        lemma_sweep_flip_symmetry(mid, bath, rounds.last());
        lemma_spin_sum_flip(sweep_spec(mid, bath, rounds.last()));
    } else {
        lemma_spin_sum_flip(s);
    }
}

/// A ring of spins; site `i` has neighbours `(i - 1) mod n` and
/// `(i + 1) mod n`.
pub struct SpinChain {
    spins: Vec<i8>,
}

impl View for SpinChain {
    type V = Seq<i8>;

    closed spec fn view(&self) -> Seq<i8> {
        self.spins@
    }
}

impl SpinChain {
    /// At least three sites, at most [`MAX_SITES`], each holding a spin.
    pub open spec fn wf(&self) -> bool {
        &&& 3 <= self@.len() <= MAX_SITES
        &&& all_spins(self@)
    }

    /// A ring of `n` sites, every one up when `up` holds, else every one down.
    pub fn uniform(n: usize, up: bool) -> (r: SpinChain)
        requires
            3 <= n <= MAX_SITES,
        ensures
            r.wf(),
            r@ == Seq::new(n as nat, |i: int| if up { 1i8 } else { -1i8 }),
    {
        let v: i8 = if up { 1 } else { -1 };
        let mut spins: Vec<i8> = Vec::with_capacity(n);
        let mut i: usize = 0;
        while i < n
            invariant
                i <= n,
                spins@ == Seq::new(i as nat, |j: int| v),
            decreases n - i,
        {
            spins.push(v);
            i = i + 1;
            assert(spins@ =~= Seq::new(i as nat, |j: int| v));
        }
        assert(spins@ =~= Seq::new(n as nat, |i: int| if up { 1i8 } else { -1i8 }));
        SpinChain { spins }
    }

    /// A ring of `n` sites, every one up: the starting state of a run.
    pub fn all_up(n: usize) -> (r: SpinChain)
        requires
            3 <= n <= MAX_SITES,
        ensures
            r.wf(),
            r@ == Seq::new(n as nat, |i: int| 1i8),
    {
        let r = SpinChain::uniform(n, true);
        assert(r@ =~= Seq::new(n as nat, |i: int| 1i8));
        r
    }

    /// The number of sites.
    pub fn len(&self) -> (r: usize)
        ensures
            r == self@.len(),
    {
        self.spins.len()
    }

    /// The spin at site `i`.
    pub fn spin(&self, i: usize) -> (r: i8)
        requires
            i < self@.len(),
        ensures
            r == self@[i as int],
    {
        self.spins[i]
    }

    /// A copy of the spins, in site order.
    pub fn to_vec(&self) -> (r: Vec<i8>)
        ensures
            r@ == self@,
    {
        self.spins.clone()
    }

    /// The magnetization: the sum of all spins.
    pub fn magnetization(&self) -> (r: i32)
        requires
            self.wf(),
        ensures
            r == spin_sum(self@),
    {
        let n = self.spins.len();
        let mut sum: i32 = 0;
        let mut i: usize = 0;
        while i < n
            invariant
                n == self@.len(),
                n <= MAX_SITES,
                all_spins(self@),
                i <= n,
                -(i as int) <= sum <= i,
                sum == spin_sum(self@.subrange(0, i as int)),
            decreases n - i,
        {
            let x = self.spins[i];
            assert(is_spin(self@[i as int]));
            assert(self@.subrange(0, i as int + 1).drop_last() =~= self@.subrange(0, i as int));
            sum = sum + x as i32;
            i = i + 1;
        }
        assert(self@.subrange(0, n as int) =~= self@);
        sum
    }

    /// One Gibbs sweep with the given draws: sites `0..n` in index order,
    /// site `i` set to `+1` exactly when `draws[i]` is below the threshold
    /// for the current sum of its neighbours. Site `0` thus reads site
    /// `n - 1` before its update, and site `n - 1` reads site `0` after it.
    pub fn sweep_with_draws(&mut self, bath: &HeatBath, draws: &Vec<u64>)
        requires
            old(self).wf(),
            draws@.len() == old(self)@.len(),
        ensures
            final(self).wf(),
            final(self)@.len() == old(self)@.len(),
            final(self)@ == sweep_spec(old(self)@, *bath, draws@),
    {
        let n = self.spins.len();
        let ghost start = self@;
        let mut i: usize = 0;
        while i < n
            invariant
                n == self@.len(),
                n == start.len(),
                3 <= n <= MAX_SITES,
                draws@.len() == n,
                i <= n,
                all_spins(self@),
                self@ == sweep_prefix(start, *bath, draws@, i as nat),
            decreases n - i,
        {
            let l = if i == 0 { n - 1 } else { i - 1 };
            let r = if i == n - 1 { 0 } else { i + 1 };
            let a = self.spins[l];
            let b = self.spins[r];
            assert(is_spin(self@[l as int]) && is_spin(self@[r as int]));
            let t = bath.threshold(a + b);
            let s: i8 = if (draws[i] as u128) < t { 1 } else { -1 };
            self.spins.set(i, s);
            i = i + 1;
        }
    }

    /// One Gibbs sweep using the next `n` draws of `rng`, site `i` taking the
    /// `i`-th of them.
    pub fn gibbs_sweep(&mut self, bath: &HeatBath, rng: &mut RandomSource)
        requires
            old(self).wf(),
        ensures
            final(self).wf(),
            final(self)@.len() == old(self)@.len(),
            exists|d: Seq<u64>|
                {
                    &&& d.len() == old(self)@.len()
                    &&& final(rng)@ == old(rng)@ + d
                    &&& final(self)@ == sweep_spec(old(self)@, *bath, d)
                },
    {
        let draws = rng.draws(self.spins.len());
        self.sweep_with_draws(bath, &draws);
    }
}

} // verus!
