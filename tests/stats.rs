use ising_chain::chain::SpinChain;
use ising_chain::correlation::{correlation, CorrelationAccumulator};
use ising_chain::moments::{Ratio, RunningMoments, StatsError};

fn value(r: Ratio) -> f64 {
    r.num as f64 / r.den as f64
}

#[test]
fn moments_of_textbook_sequence() {
    let mut m = RunningMoments::new();
    for x in [2, 4, 4, 4, 5, 5, 7, 9] {
        m.push(x);
    }
    assert_eq!(m.count(), 8);
    let mean = m.mean().unwrap();
    assert_eq!(mean, Ratio { num: 40, den: 8 });
    assert_eq!(value(mean), 5.0);
    let var = m.variance().unwrap();
    assert_eq!(var, Ratio { num: 256, den: 56 });
    assert!((value(var) - 4.571429).abs() < 1e-6);
}

#[test]
fn variance_needs_two_observations() {
    let mut m = RunningMoments::new();
    assert_eq!(m.mean(), Err(StatsError::InsufficientSamples));
    assert_eq!(m.variance(), Err(StatsError::InsufficientSamples));
    m.push(3);
    assert_eq!(m.mean(), Ok(Ratio { num: 3, den: 1 }));
    assert_eq!(m.variance(), Err(StatsError::InsufficientSamples));
}

#[test]
fn moments_merge_matches_single_stream() {
    let mut a = RunningMoments::new();
    let mut b = RunningMoments::new();
    let mut all = RunningMoments::new();
    for x in [2, 4, 4, 4] {
        a.push(x);
        all.push(x);
    }
    for x in [5, 5, 7, 9] {
        b.push(x);
        all.push(x);
    }
    a.merge(&b);
    assert_eq!(a.count(), 8);
    assert_eq!(a.mean(), all.mean());
    assert_eq!(a.variance(), all.variance());
}

#[test]
fn moments_extreme_observations() {
    let mut m = RunningMoments::new();
    m.push(i32::MIN);
    m.push(i32::MAX);
    let v = m.variance().unwrap();
    let d = i32::MAX as i128 - i32::MIN as i128;
    assert_eq!(v, Ratio { num: d * d, den: 2 });
}

#[test]
fn correlation_all_up_is_one_everywhere() {
    let c = correlation(&SpinChain::all_up(5));
    assert_eq!(c, vec![5, 5]);
    let c = correlation(&SpinChain::uniform(10, false));
    assert_eq!(c, vec![10; 5]);
}

#[test]
fn correlation_of_three_sites_has_lag_zero_only() {
    let c = correlation(&SpinChain::all_up(3));
    assert_eq!(c, vec![3]);
}

#[test]
fn correlation_of_alternating_ring() {
    let mut ch = SpinChain::all_up(4);
    let bath = ising_chain::heat_bath::HeatBath::new(0, ising_chain::heat_bath::DRAW_RANGE, 0).unwrap();
    // Site 0 sees sum 2 (threshold 0): down. Site 1 sees sum 0: up.
    // Site 2 sees sum 2: down. Site 3 sees sum -2 (threshold 0): down.
    ch.sweep_with_draws(&bath, &vec![0, 0, 0, 0]);
    assert_eq!(ch.to_vec(), vec![-1, 1, -1, -1]);
    let c = correlation(&ch);
    assert_eq!(c.len(), 2);
    assert_eq!(c[0], 4);
    // lag 1: (-1)(1) + (1)(-1) + (-1)(-1) + (-1)(-1) = 0
    assert_eq!(c[1], 0);
}

#[test]
fn correlation_accumulator_means() {
    let mut acc = CorrelationAccumulator::new(2, 4);
    assert_eq!(acc.means(), Err(StatsError::InsufficientSamples));
    acc.push(&vec![4, 0]);
    acc.push(&vec![4, -4]);
    assert_eq!(acc.count(), 2);
    let m = acc.means().unwrap();
    assert_eq!(m, vec![Ratio { num: 8, den: 8 }, Ratio { num: -4, den: 8 }]);
    assert_eq!(value(m[0]), 1.0);
    assert_eq!(value(m[1]), -0.5);
}
