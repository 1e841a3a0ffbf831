use rand::rngs::SmallRng;
use rand::{Rng, SeedableRng};
use rand_distr::Exp1;
use rebop::engine::{Draw, Engine, Error};
use rebop::model::Gillespie;
use rebop::rate::Rate;
use rebop::trajectory::{Directive, Recorder};

/// The real-valued side of a simulation: clock, random source, propensities.
struct Simulation {
    engine: Engine<f64>,
    t: f64,
    rng: SmallRng,
    factors: Vec<Option<i64>>,
    rates: Vec<f64>,
}

impl Simulation {
    fn new(engine: Engine<f64>, seed: u64) -> Self {
        Simulation {
            engine,
            t: 0.0,
            rng: SmallRng::seed_from_u64(seed),
            factors: Vec::new(),
            rates: Vec::new(),
        }
    }

    /// Fills `rates` and returns their sum, or `None` if one is invalid.
    fn total_rate(&mut self) -> Option<f64> {
        self.engine.evaluate(&mut self.factors);
        self.rates.clear();
        let mut total = 0.0;
        for j in 0..self.factors.len() {
            let k = *self.engine.reaction(j).unwrap().rate.rate_constant();
            let mut a = match self.factors[j] {
                Some(p) => k * p as f64,
                None => k * f64::MAX,
            };
            if a == f64::INFINITY {
                a = f64::MAX;
            }
            if a.is_nan() || a < 0.0 {
                return None;
            }
            self.rates.push(a);
            total += a;
        }
        Some(if total == f64::INFINITY { f64::MAX } else { total })
    }

    /// Samples the waiting time and then the reaction; with a horizon, a
    /// firing after it is discarded before the reaction is sampled.
    fn draw(&mut self, horizon: Option<f64>) -> (Draw, f64) {
        let total = match self.total_rate() {
            Some(total) => total,
            None => return (Draw::Invalid, 0.0),
        };
        if total <= 0.0 {
            return (Draw::Absorbing, 0.0);
        }
        let dt = self.rng.sample::<f64, _>(Exp1) / total;
        if let Some(target) = horizon {
            if self.t + dt > target {
                return (Draw::Beyond, dt);
            }
        }
        let threshold = self.rng.gen::<f64>() * total;
        let mut sum = 0.0;
        let mut chosen = None;
        for (j, a) in self.rates.iter().enumerate() {
            sum += a;
            if sum > threshold {
                chosen = Some(j);
                break;
            }
        }
        let j = chosen.unwrap_or_else(|| self.rates.iter().rposition(|&a| a > 0.0).unwrap());
        (Draw::Fire(j), dt)
    }

    fn advance_until(&mut self, target: f64) -> Result<(), Error> {
        loop {
            let (draw, dt) = self.draw(Some(target));
            if let Draw::Fire(j) = draw {
                assert!(self.engine.can_fire(j));
            }
            match self.engine.commit(draw)? {
                Some(_) => self.t += dt,
                None => {
                    self.t = target;
                    return Ok(());
                }
            }
        }
    }

    fn advance_one_reaction(&mut self) -> Result<Option<(f64, usize)>, Error> {
        let (draw, dt) = self.draw(None);
        if let Draw::Fire(j) = draw {
            assert!(self.engine.can_fire(j));
        }
        Ok(match self.engine.commit(draw)? {
            Some(j) => {
                self.t += dt;
                Some((dt, j))
            }
            None => None,
        })
    }
}

/// Runs `engine` until `tmax`, sampled as `nb_steps` says.
fn run(
    engine: Engine<f64>,
    tmax: f64,
    nb_steps: usize,
    seed: u64,
) -> Result<(Vec<f64>, Vec<Vec<i64>>, f64), Error> {
    let mut recorder = Recorder::new(engine.nb_species(), nb_steps);
    let mut sim = Simulation::new(engine, seed);
    let mut times = Vec::new();
    loop {
        match recorder.next(sim.t >= tmax) {
            Directive::AdvanceTo { index, of } => {
                let t = tmax * index as f64 / of as f64;
                sim.advance_until(t)?;
                times.push(t);
                recorder.record(sim.engine.counts())?;
            }
            Directive::Record => {
                times.push(sim.t);
                recorder.record(sim.engine.counts())?;
            }
            Directive::React => match sim.advance_one_reaction()? {
                Some(_) => {
                    times.push(sim.t);
                    recorder.record(sim.engine.counts())?;
                }
                None => recorder.halt(),
            },
            Directive::Finish => break,
        }
    }
    let columns = (0..sim.engine.nb_species()).map(|i| recorder.column(i).unwrap()).collect();
    Ok((times, columns, sim.t))
}

fn names(list: &[&str]) -> Vec<String> {
    list.iter().map(|s| s.to_string()).collect()
}

fn sir() -> Engine<f64> {
    let mut engine = Engine::new(vec![999, 1, 0]);
    engine.add_reaction(Rate::lma(1e-4, vec![1, 1, 0]), vec![-1, 1, 0]).unwrap();
    engine.add_reaction(Rate::lma(0.01, vec![0, 1, 0]), vec![0, -1, 1]).unwrap();
    engine
}

/// Molecules appear at a constant rate and decay one by one: never absorbing.
fn birth_death() -> Engine<f64> {
    let mut engine = Engine::new(vec![0]);
    engine.add_reaction(Rate::lma(5.0, vec![0]), vec![1]).unwrap();
    engine.add_reaction(Rate::lma(0.1, vec![1]), vec![-1]).unwrap();
    engine
}

fn decay(n: i64, k: f64) -> Engine<f64> {
    let mut engine = Engine::new(vec![n]);
    engine.add_reaction(Rate::lma(k, vec![1]), vec![-1]).unwrap();
    engine
}

#[test]
fn empty_system_grid() {
    let engine: Engine<f64> = Engine::new(vec![5]);
    let (times, species, _) = run(engine, 10.0, 2, 1).unwrap();
    assert_eq!(times, vec![0.0, 5.0, 10.0]);
    assert_eq!(species, vec![vec![5, 5, 5]]);
}

#[test]
fn single_pure_decay_event_mode() {
    let (times, species, t) = run(decay(3, 1.0), 1e6, 0, 42).unwrap();
    assert_eq!(times.len(), 3 + 1);
    assert_eq!(species, vec![vec![3, 2, 1, 0]]);
    assert_eq!(*species[0].last().unwrap(), 0);
    assert_eq!(times[0], 0.0);
    assert_eq!(t, times[3]);
    assert!(t < 1e6);
}

#[test]
fn sir_grid_conserves_the_population() {
    let (times, species, _) = run(sir(), 250.0, 250, 7).unwrap();
    assert_eq!(times.len(), 251);
    for column in &species {
        assert_eq!(column.len(), 251);
    }
    for k in 0..times.len() {
        assert_eq!(species[0][k] + species[1][k] + species[2][k], 1000);
        assert!(species.iter().all(|column| column[k] >= 0));
    }
    assert_eq!((species[0][0], species[1][0], species[2][0]), (999, 1, 0));
}

#[test]
fn sir_by_name_is_sir_by_index() {
    let mut system = Gillespie::new();
    system.add_reaction(1e-4, names(&["S", "I"]), names(&["I", "I"]), None);
    system.add_reaction(0.01, names(&["I"]), names(&["R"]), None);
    let init = vec![("S".to_string(), 999), ("I".to_string(), 1), ("Q".to_string(), 4)];
    let by_name = run(system.engine(&init), 250.0, 50, 11).unwrap();
    let by_index = run(sir(), 250.0, 50, 11).unwrap();
    assert_eq!(by_name, by_index);
}

#[test]
fn absorbing_state_grid() {
    let mut engine = Engine::new(vec![0, 0]);
    engine.add_reaction(Rate::lma(5.0, vec![1, 0]), vec![-1, 1]).unwrap();
    let mut sim = Simulation::new(engine, 7);
    sim.advance_until(100.0).unwrap();
    assert_eq!(sim.t, 100.0);
    assert_eq!(sim.engine.counts(), &vec![0, 0]);
    sim.advance_until(200.0).unwrap();
    assert_eq!(sim.engine.counts(), &vec![0, 0]);
}

#[test]
fn absorbing_state_event_mode() {
    let mut engine = Engine::new(vec![0, 0]);
    engine.add_reaction(Rate::lma(5.0, vec![1, 0]), vec![-1, 1]).unwrap();
    let (times, species, t) = run(engine, 100.0, 0, 7).unwrap();
    assert_eq!(times, vec![0.0]);
    assert_eq!(species, vec![vec![0], vec![0]]);
    assert_eq!(t, 0.0);
}

#[test]
fn absorbing_state_one_reaction_is_no_step() {
    let mut sim = Simulation::new(decay(0, 1.0), 3);
    assert_eq!(sim.advance_one_reaction(), Ok(None));
    assert_eq!(sim.t, 0.0);
    assert_eq!(sim.engine.counts(), &vec![0]);
}

#[test]
fn zero_rate_constant_is_absorbing() {
    let (times, species, t) = run(decay(10, 0.0), 5.0, 0, 1).unwrap();
    assert_eq!(times, vec![0.0]);
    assert_eq!(species, vec![vec![10]]);
    assert_eq!(t, 0.0);
}

#[test]
fn grid_times_are_exact() {
    for &(tmax, nb_steps) in &[(10.0, 2usize), (1.0, 3), (250.0, 250), (0.7, 7), (1e-3, 1)] {
        let (times, species, _) = run(sir(), tmax, nb_steps, 5).unwrap();
        assert_eq!(times.len(), nb_steps + 1);
        for i in 0..=nb_steps {
            assert_eq!(times[i], tmax * i as f64 / nb_steps as f64);
        }
        assert_eq!(times[0], 0.0);
        assert!(species.iter().all(|column| column.len() == times.len()));
    }
}

#[test]
fn time_never_decreases() {
    let (times, _, _) = run(birth_death(), 20.0, 0, 9).unwrap();
    assert!(times.len() > 2);
    assert!(times.windows(2).all(|w| w[0] <= w[1]));
    let mut sim = Simulation::new(birth_death(), 9);
    let mut last = sim.t;
    for target in [1.0, 0.5, 3.0, 3.0, 2.0, 10.0] {
        let before = sim.t;
        sim.advance_until(target).unwrap();
        if target >= before {
            assert!(sim.t >= last);
            last = sim.t;
        }
        sim.advance_one_reaction().unwrap();
        assert!(sim.t >= target.min(last));
        last = sim.t;
    }
}

#[test]
fn event_mode_ends_with_the_first_firing_past_the_end() {
    let (times, species, t) = run(birth_death(), 20.0, 0, 9).unwrap();
    let last = times.len() - 1;
    assert!(times[last] >= 20.0);
    assert!(times[..last].iter().all(|&t| t < 20.0));
    assert_eq!(t, times[last]);
    assert!(species.iter().all(|column| column.len() == times.len()));
}

#[test]
fn same_seed_same_run() {
    let a = run(sir(), 100.0, 100, 1234).unwrap();
    let b = run(sir(), 100.0, 100, 1234).unwrap();
    assert_eq!(a, b);
    let c = run(sir(), 50.0, 0, 1234).unwrap();
    let d = run(sir(), 50.0, 0, 1234).unwrap();
    assert_eq!(c.0.iter().map(|t| t.to_bits()).collect::<Vec<_>>(),
               d.0.iter().map(|t| t.to_bits()).collect::<Vec<_>>());
    assert_eq!(c.1, d.1);
}

#[test]
fn first_event_takes_time() {
    for seed in 0..200 {
        let mut sim = Simulation::new(sir(), seed);
        let (dt, j) = sim.advance_one_reaction().unwrap().unwrap();
        assert!(dt > 0.0);
        assert!(j < 2);
        assert_eq!(sim.t, dt);
    }
}

#[test]
fn silent_reactions_are_never_drawn() {
    // Only the healing reaction can fire: nobody is left to infect.
    let mut engine = Engine::new(vec![0, 50, 0]);
    engine.add_reaction(Rate::lma(1e-4, vec![1, 1, 0]), vec![-1, 1, 0]).unwrap();
    engine.add_reaction(Rate::lma(0.01, vec![0, 1, 0]), vec![0, -1, 1]).unwrap();
    let mut sim = Simulation::new(engine, 21);
    for _ in 0..50 {
        assert_eq!(sim.advance_one_reaction().unwrap().unwrap().1, 1);
    }
    assert_eq!(sim.engine.counts(), &vec![0, 0, 50]);
    assert_eq!(sim.advance_one_reaction(), Ok(None));
}

#[test]
fn invalid_propensity_stops_the_run() {
    let mut sim = Simulation::new(decay(5, f64::NAN), 1);
    assert_eq!(sim.advance_until(1.0), Err(Error::InvalidPropensity));
    assert_eq!(sim.engine.counts(), &vec![5]);
    assert_eq!(sim.t, 0.0);
    let mut sim = Simulation::new(decay(5, -1.0), 1);
    assert_eq!(sim.advance_one_reaction(), Err(Error::InvalidPropensity));
    assert_eq!(sim.engine.counts(), &vec![5]);
    assert_eq!(run(decay(5, f64::NAN), 1.0, 4, 1), Err(Error::InvalidPropensity));
}

#[test]
fn propensity_saturates() {
    let mut engine = Engine::new(vec![i64::MAX, 0]);
    engine.add_reaction(Rate::lma(2.0, vec![3, 0]), vec![-1, 1]).unwrap();
    let mut sim = Simulation::new(engine, 1);
    assert_eq!(sim.total_rate(), Some(f64::MAX));
    assert_eq!(sim.rates, vec![f64::MAX]);
    let (dt, j) = sim.advance_one_reaction().unwrap().unwrap();
    assert!(dt >= 0.0 && dt.is_finite());
    assert_eq!(j, 0);
}

#[test]
fn pure_decay_mean() {
    let (n, k, t) = (100, 1.0, 1.0f64);
    let runs = 2000;
    let mut sum = 0.0;
    for seed in 0..runs {
        let mut sim = Simulation::new(decay(n, k), seed);
        sim.advance_until(t).unwrap();
        sum += sim.engine.get_species(0).unwrap() as f64;
    }
    let mean = sum / runs as f64;
    let expected = n as f64 * (-k * t).exp();
    assert!((mean - expected).abs() < 1.0, "mean {} expected {}", mean, expected);
}

#[test]
fn reversible_binding_equilibrium() {
    let (n, kf, kr) = (50i64, 0.1, 1.0);
    let mut system = Gillespie::new();
    system.add_reaction(kf, names(&["A", "B"]), names(&["C"]), Some(kr));
    let init = vec![("A".to_string(), n), ("B".to_string(), n)];
    let runs = 300;
    let mut sum = 0.0;
    for seed in 0..runs {
        let mut sim = Simulation::new(system.engine(&init), seed);
        sim.advance_until(10.0).unwrap();
        let x = sim.engine.counts();
        assert_eq!(x[0] + x[2], n);
        assert_eq!(x[1] + x[2], n);
        sum += x[2] as f64;
    }
    let mean = sum / runs as f64;
    // kf (n - c)^2 = kr c
    let b = 2.0 * n as f64 + kr / kf;
    let expected = (b - (b * b - 4.0 * (n * n) as f64).sqrt()) / 2.0;
    assert!((mean - expected).abs() < 1.5, "mean {} expected {}", mean, expected);
}
