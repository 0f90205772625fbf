use walkers::config::{height, HEIGHT, MAX_WALKERS, MIN_WALKERS, WIDTH};
use walkers::simulation::{sample_population_size, Particle, Simulation};

struct Probe {
    id: i64,
    log: Vec<String>,
}

impl Probe {
    fn new(id: i64) -> Self {
        Probe { id, log: Vec::new() }
    }
}

impl Particle for Probe {
    type Force = i64;

    fn started(mut self) -> Self {
        self.start_rebound();
        self
    }

    fn force_on(self, other: Self) -> i64 {
        self.rebound(&other)
    }

    fn recoil_of(force: i64) -> i64 {
        Self::recoil(&force)
    }

    fn reaction_of(force: i64) -> i64 {
        Self::reaction(&force)
    }

    fn pushed(mut self, force: i64) -> Self {
        self.apply_force(force);
        self
    }

    fn advanced(mut self) -> Self {
        self.update();
        self
    }

    fn start_rebound(&mut self) {
        self.log.push("start".to_string());
    }

    fn rebound(&self, other: &Self) -> i64 {
        self.id * 10 + other.id
    }

    fn recoil(force: &i64) -> i64 {
        -*force
    }

    fn reaction(force: &i64) -> i64 {
        *force * 100
    }

    fn apply_force(&mut self, force: i64) {
        self.log.push(format!("force {}", force));
    }

    fn update(&mut self) {
        self.log.push("update".to_string());
    }
}

fn logs(sim: &Simulation<Probe>) -> Vec<Vec<String>> {
    sim.walkers().iter().map(|w| w.log.clone()).collect()
}

#[test]
fn tick_resolves_every_pair_once_in_order() {
    let mut sim = Simulation::new(vec![Probe::new(1), Probe::new(2), Probe::new(3)]);
    sim.tick();
    assert_eq!(sim.len(), 3);
    assert_eq!(
        logs(&sim),
        vec![
            vec!["start", "force -12", "force -13", "update"],
            vec!["start", "force 1200", "force -23", "update"],
            vec!["start", "force 1300", "force 2300", "update"],
        ]
    );
}

#[test]
fn tick_keeps_the_population_size() {
    let walkers: Vec<Probe> = (0..MAX_WALKERS as i64).map(Probe::new).collect();
    let mut sim = Simulation::new(walkers);
    sim.tick();
    sim.tick();
    assert_eq!(sim.len(), MAX_WALKERS);
    let log = &sim.walkers()[7].log;
    assert_eq!(log.len(), 2 * (MAX_WALKERS + 1));
    assert_eq!(log.iter().filter(|e| e.as_str() == "update").count(), 2);
}

#[test]
fn reset_replaces_the_population() {
    let mut sim = Simulation::new(vec![Probe::new(1), Probe::new(2), Probe::new(3)]);
    sim.tick();
    let n = sample_population_size();
    sim.reset((0..n as i64).map(Probe::new).collect());
    assert_eq!(sim.len(), n);
    assert!(sim.walkers().iter().all(|w| w.log.is_empty()));
    assert_eq!(sim.walkers()[n - 1].id, n as i64 - 1);
}

#[test]
fn sampled_sizes_lie_in_range() {
    let mut seen_above_min = false;
    for _ in 0..500 {
        let n = sample_population_size();
        assert!(n >= MIN_WALKERS && n <= MAX_WALKERS);
        seen_above_min |= n > MIN_WALKERS;
    }
    assert!(seen_above_min);
}

#[test]
fn height_is_nine_sixteenths_of_the_width() {
    assert_eq!(WIDTH, 600);
    assert_eq!(height(), 337);
    assert_eq!(height(), HEIGHT);
}
