use ising_chain::heat_bath::{HeatBath, DRAW_RANGE};
use ising_chain::random::RandomSource;
use ising_chain::sampler::{run, ConfigField, RunConfig, SimError, Simulation};

/// Threshold of the up-probability `1 / (1 + exp(-2a))` for local field `a`.
fn threshold(a: f64) -> u128 {
    let p = 1.0 / (1.0 + (-2.0 * a).exp());
    let t = (p * 18446744073709551616.0).ceil();
    if t >= 18446744073709551616.0 {
        DRAW_RANGE
    } else {
        t as u128
    }
}

fn bath(j: f64, h: f64) -> HeatBath {
    HeatBath::new(threshold(-2.0 * j + h), threshold(h), threshold(2.0 * j + h)).unwrap()
}

fn config(sites: usize, init: u32, iters: u32, freq: u32) -> RunConfig {
    RunConfig { sites, init_iters: init, sample_iters: iters, sample_freq: freq }
}

#[test]
fn zero_field_threshold_is_one_half() {
    assert_eq!(threshold(0.0), 1u128 << 63);
    let b = bath(1.0, 0.0);
    assert_eq!(b.zero, 1u128 << 63);
    assert!(b.up > b.zero && b.down < b.zero);
}

#[test]
fn validation_names_the_bad_parameter() {
    assert_eq!(config(2, 1, 1, 1).validate(), Err(SimError::Config(ConfigField::Sites)));
    assert_eq!(config(0x8000_0000, 1, 1, 1).validate(), Err(SimError::Config(ConfigField::Sites)));
    assert_eq!(config(3, 0, 1, 1).validate(), Err(SimError::Config(ConfigField::InitIters)));
    assert_eq!(config(3, 1, 0, 1).validate(), Err(SimError::Config(ConfigField::SampleIters)));
    assert_eq!(config(3, 1, 1, 0).validate(), Err(SimError::Config(ConfigField::SampleFreq)));
    assert_eq!(config(3, 1, 1, 1).validate(), Ok(()));
    let mut rng = RandomSource::from_seed(1);
    assert_eq!(run(config(2, 10, 10, 1), bath(1.0, 0.0), &mut rng), Err(SimError::Config(ConfigField::Sites)));
}

#[test]
fn too_few_measurements_is_an_error() {
    let mut rng = RandomSource::from_seed(1);
    assert_eq!(run(config(8, 10, 5, 10), bath(1.0, 0.0), &mut rng), Err(SimError::InsufficientSamples));
    // Sweeps 0 and 10 are measured.
    let r = run(config(8, 10, 11, 10), bath(1.0, 0.0), &mut rng).unwrap();
    assert_eq!(r.count, 2);
}

#[test]
fn end_to_end_eight_sites() {
    let mut rng = RandomSource::from_seed(2024);
    let r = run(config(8, 1000, 2000, 10), bath(1.0, 0.0), &mut rng).unwrap();
    assert_eq!(r.count, 200);
    assert_eq!(r.mean.den, 200);
    let var = r.variance.num as f64 / r.variance.den as f64;
    let sd = var.sqrt();
    assert!(sd.is_finite() && sd > 0.0);
    assert_eq!(r.correlation.len(), 4);
    assert_eq!(r.correlation[0].num, r.correlation[0].den);
    assert_eq!(r.correlation[0].num as f64 / r.correlation[0].den as f64, 1.0);
}

#[test]
fn three_sites_run_has_one_lag() {
    let mut rng = RandomSource::from_seed(5);
    let r = run(config(3, 10, 100, 1), bath(0.5, 0.2), &mut rng).unwrap();
    assert_eq!(r.count, 100);
    assert_eq!(r.correlation.len(), 1);
    assert_eq!(r.correlation[0].num, 300);
    assert_eq!(r.correlation[0].den, 300);
}

#[test]
fn same_seed_same_run() {
    let c = config(16, 100, 500, 5);
    let mut a = RandomSource::from_seed(99);
    let mut b = RandomSource::from_seed(99);
    let ra = run(c, bath(0.7, 0.1), &mut a).unwrap();
    let rb = run(c, bath(0.7, 0.1), &mut b).unwrap();
    assert_eq!(ra, rb);

    let mut sa = Simulation::new(c, bath(0.7, 0.1)).unwrap();
    let mut sb = Simulation::new(c, bath(0.7, 0.1)).unwrap();
    assert_eq!(sa.spins(), vec![1; 16]);
    let mut a = RandomSource::from_seed(3);
    let mut b = RandomSource::from_seed(3);
    for i in 0..50u32 {
        let da = a.draws(16);
        let db = b.draws(16);
        sa.sample_with_draws(i, &da);
        sb.sample_with_draws(i, &db);
        assert_eq!(sa.spins(), sb.spins());
    }
    assert_eq!(sa.count(), 10);
    assert_eq!(sa.report(), sb.report());
}

#[test]
fn simulation_phases_and_measurements() {
    let c = config(6, 3, 7, 3);
    let mut sim = Simulation::new(c, bath(1.0, 0.0)).unwrap();
    let mut rng = RandomSource::from_seed(17);
    sim.burn_in(&mut rng);
    assert_eq!(sim.count(), 0);
    sim.sample(&mut rng);
    // Sweeps 0, 3 and 6 are measured.
    assert_eq!(sim.count(), 3);
    let r = sim.report().unwrap();
    assert_eq!(r.count, 3);
    assert_eq!(r.correlation.len(), 3);
    assert_eq!(r.correlation[0].num, 18);
    assert!(r.mean.num.abs() <= 18);
    assert!(r.variance.num >= 0);
    assert_eq!(r.variance.den, 6);
}

#[test]
fn measure_records_current_ring() {
    let c = config(4, 1, 1, 1);
    let mut sim = Simulation::new(c, bath(1.0, 0.0)).unwrap();
    sim.measure();
    assert_eq!(sim.report(), Err(SimError::InsufficientSamples));
    sim.measure();
    let r = sim.report().unwrap();
    assert_eq!(r.mean.num, 8);
    assert_eq!(r.variance.num, 0);
    assert_eq!(r.correlation[1].num, 8);
}

#[test]
fn zero_field_runs_from_opposite_starts_mirror() {
    // A sweep with the largest draws sends every site down; from there,
    // zero-field sweeps with reflected draws mirror the all-up run.
    let b = HeatBath::symmetric(threshold(2.0)).unwrap();
    let c = config(10, 1, 1, 1);
    let mut up = Simulation::new(c, b).unwrap();
    let mut down = Simulation::new(c, b).unwrap();
    down.sweep_with_draws(&vec![u64::MAX; 10]);
    assert_eq!(down.spins(), vec![-1; 10]);
    let mut rng = RandomSource::from_seed(8);
    for _ in 0..200 {
        let d = rng.draws(10);
        let r: Vec<u64> = d.iter().map(|x| u64::MAX - x).collect();
        up.sweep_with_draws(&d);
        down.sweep_with_draws(&r);
    }
    let neg: Vec<i8> = up.spins().iter().map(|s| -s).collect();
    assert_eq!(down.spins(), neg);
}

#[test]
fn start_from_all_down() {
    let c = config(5, 1, 1, 1);
    let sim = Simulation::with_start(c, bath(1.0, 0.0), false).unwrap();
    assert_eq!(sim.spins(), vec![-1; 5]);
    assert_eq!(sim.count(), 0);
    let up = Simulation::with_start(c, bath(1.0, 0.0), true).unwrap();
    assert_eq!(up.spins(), vec![1; 5]);
    assert_eq!(Simulation::with_start(config(5, 0, 1, 1), bath(1.0, 0.0), false).err(), Some(SimError::Config(ConfigField::InitIters)));
}

#[test]
fn zero_field_whole_runs_mirror() {
    let b = HeatBath::symmetric(threshold(1.5)).unwrap();
    let c = config(8, 20, 60, 3);
    let mut up = Simulation::with_start(c, b, true).unwrap();
    let mut down = Simulation::with_start(c, b, false).unwrap();
    let mut rng = RandomSource::from_seed(31);
    for _ in 0..20 {
        let d = rng.draws(8);
        let r: Vec<u64> = d.iter().map(|x| u64::MAX - x).collect();
        up.sweep_with_draws(&d);
        down.sweep_with_draws(&r);
    }
    for i in 0..60u32 {
        let d = rng.draws(8);
        let r: Vec<u64> = d.iter().map(|x| u64::MAX - x).collect();
        up.sample_with_draws(i, &d);
        down.sample_with_draws(i, &r);
    }
    let ru = up.report().unwrap();
    let rd = down.report().unwrap();
    assert_eq!(ru.count, 20);
    assert_eq!(rd.mean.num, -ru.mean.num);
    assert_eq!(rd.mean.den, ru.mean.den);
    assert_eq!(rd.variance, ru.variance);
    assert_eq!(rd.correlation, ru.correlation);
}
