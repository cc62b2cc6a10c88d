use ising_chain::chain::SpinChain;
use ising_chain::heat_bath::{BathError, HeatBath, DRAW_RANGE, HALF_RANGE};
use ising_chain::random::RandomSource;

const QUARTER: u64 = 0x4000_0000_0000_0000;

fn three_quarters_bath() -> HeatBath {
    HeatBath::symmetric(0xC000_0000_0000_0000).unwrap()
}

#[test]
fn bath_rejects_threshold_above_range() {
    assert_eq!(HeatBath::new(0, DRAW_RANGE + 1, 0), Err(BathError::ThresholdOutOfRange));
    assert_eq!(HeatBath::symmetric(DRAW_RANGE + 1), Err(BathError::ThresholdOutOfRange));
    let b = HeatBath::new(0, HALF_RANGE, DRAW_RANGE).unwrap();
    assert_eq!(b.threshold(-2), 0);
    assert_eq!(b.threshold(0), HALF_RANGE);
    assert_eq!(b.threshold(2), DRAW_RANGE);
}

#[test]
fn symmetric_bath_thresholds() {
    let b = three_quarters_bath();
    assert_eq!(b.up, 0xC000_0000_0000_0000);
    assert_eq!(b.zero, HALF_RANGE);
    assert_eq!(b.down, 0x4000_0000_0000_0000);
}

#[test]
fn uniform_chains_and_magnetization() {
    let up = SpinChain::all_up(5);
    assert_eq!(up.to_vec(), vec![1, 1, 1, 1, 1]);
    assert_eq!(up.magnetization(), 5);
    let down = SpinChain::uniform(4, false);
    assert_eq!(down.to_vec(), vec![-1, -1, -1, -1]);
    assert_eq!(down.magnetization(), -4);
    assert_eq!(down.len(), 4);
    assert_eq!(down.spin(2), -1);
}

#[test]
fn sweep_reads_updated_left_neighbour_of_last_site() {
    // Site 0 goes down; site 3 then sees the new site 0 (sum 0, threshold
    // one half) and its draw of 5/8 sends it down too. With the old site 0
    // it would have seen sum 2 and stayed up.
    let mut c = SpinChain::all_up(4);
    let draws: Vec<u64> = vec![0xD000_0000_0000_0000, 0x1000_0000_0000_0000, 0x9000_0000_0000_0000, 0xA000_0000_0000_0000];
    c.sweep_with_draws(&three_quarters_bath(), &draws);
    assert_eq!(c.to_vec(), vec![-1, 1, 1, -1]);
}

#[test]
fn sweep_extreme_thresholds() {
    let always_up = HeatBath::new(DRAW_RANGE, DRAW_RANGE, DRAW_RANGE).unwrap();
    let never_up = HeatBath::new(0, 0, 0).unwrap();
    let mut c = SpinChain::uniform(3, false);
    c.sweep_with_draws(&always_up, &vec![u64::MAX, u64::MAX, u64::MAX]);
    assert_eq!(c.to_vec(), vec![1, 1, 1]);
    c.sweep_with_draws(&never_up, &vec![0, 0, 0]);
    assert_eq!(c.to_vec(), vec![-1, -1, -1]);
}

#[test]
fn zero_field_flip_symmetry_on_reflected_draws() {
    let bath = three_quarters_bath();
    let mut up = SpinChain::all_up(7);
    let mut down = SpinChain::uniform(7, false);
    let mut rng = RandomSource::from_seed(11);
    for _ in 0..50 {
        let d = rng.draws(7);
        let reflected: Vec<u64> = d.iter().map(|x| u64::MAX - x).collect();
        up.sweep_with_draws(&bath, &d);
        down.sweep_with_draws(&bath, &reflected);
        let negated: Vec<i8> = up.to_vec().iter().map(|s| -s).collect();
        assert_eq!(down.to_vec(), negated);
        assert_eq!(down.magnetization(), -up.magnetization());
    }
}

#[test]
fn gibbs_sweep_same_seed_same_trajectory() {
    let bath = three_quarters_bath();
    let mut a = SpinChain::all_up(9);
    let mut b = SpinChain::all_up(9);
    let mut ra = RandomSource::from_seed(42);
    let mut rb = RandomSource::from_seed(42);
    for _ in 0..100 {
        a.gibbs_sweep(&bath, &mut ra);
        b.gibbs_sweep(&bath, &mut rb);
        assert_eq!(a.to_vec(), b.to_vec());
    }
}

#[test]
fn random_source_is_fixed_by_seed() {
    let mut a = RandomSource::from_seed(7);
    let mut b = RandomSource::from_seed(7);
    let mut c = RandomSource::from_seed(8);
    let da = a.draws(16);
    assert_eq!(da.len(), 16);
    assert_eq!(da, b.draws(16));
    assert_ne!(da, c.draws(16));
    assert_ne!(a.next_draw(), da[0]);
    assert!(da.iter().any(|x| *x > QUARTER));
}
