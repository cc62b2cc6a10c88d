use rand::rngs::StdRng;
use vstd::prelude::*;

verus! {

#[verifier::external_type_specification]
#[verifier::external_body]
pub struct ExStdRng(StdRng);

/// Relies on rand's `SeedableRng::seed_from_u64` for `StdRng`: a generator
/// whose stream is fixed by the seed.
#[verifier::external_body]
fn seeded_generator(seed: u64) -> StdRng {
    <StdRng as rand::SeedableRng>::seed_from_u64(seed)
}

/// Relies on rand's `RngCore::next_u64` for `StdRng`: the next value of the
/// stream, uniform over all of `u64`.
#[verifier::external_body]
fn next_value(g: &mut StdRng) -> u64 {
    rand::RngCore::next_u64(g)
}

/// The stream of uniform 64-bit draws that drives the sweeps. Two sources
/// made from the same seed yield the same draws.
pub struct RandomSource {
    generator: StdRng,
    taken: Ghost<Seq<u64>>,
}

impl View for RandomSource {
    type V = Seq<u64>;

    /// The draws handed out so far, in order.
    closed spec fn view(&self) -> Seq<u64> {
        self.taken@
    }
}

/// The draws of several rounds, one after another.
pub open spec fn concat_rounds(rounds: Seq<Seq<u64>>) -> Seq<u64>
    decreases rounds.len(),
{
    if rounds.len() == 0 {
        Seq::empty()
    } else {
        concat_rounds(rounds.drop_last()) + rounds.last()
    }
}

impl RandomSource {
    /// A source whose whole stream is fixed by `seed`; nothing drawn yet.
    pub fn from_seed(seed: u64) -> (r: RandomSource)
        ensures
            r@ == Seq::<u64>::empty(),
    {
        RandomSource { generator: seeded_generator(seed), taken: Ghost(Seq::empty()) }
    }

    /// The next uniform draw in `[0, 2^64)`.
    pub fn next_draw(&mut self) -> (r: u64)
        ensures
            final(self)@ == old(self)@.push(r),
    {
        let r = next_value(&mut self.generator);
        self.taken = Ghost(self.taken@.push(r));
        r
    }

    /// The next `n` draws, in the order in which they come.
    pub fn draws(&mut self, n: usize) -> (r: Vec<u64>)
        ensures
            r@.len() == n,
            final(self)@ == old(self)@ + r@,
    {
        let mut r: Vec<u64> = Vec::with_capacity(n);
        let mut i: usize = 0;
        while i < n
            invariant
                i <= n,
                r@.len() == i,
                self@ == old(self)@ + r@,
            decreases n - i,
        {
            let d = self.next_draw();
            r.push(d);
            i = i + 1;
            assert(self@ =~= old(self)@ + r@);
        }
        r
    }
}

} // verus!
