use particle_life::config::{Config, ConfigError};
use particle_life::engine::{Engine, EngineError};
use particle_life::kinds::ParticleType;
use particle_life::particle::Particle;
use particle_life::rules::{RuleEntry, RuleError, RuleTable, NUM_RULES};

fn config(populations: Vec<usize>) -> Config {
    Config {
        width: 1_000_000,
        height: 600_000,
        populations,
        particle_radius: 1000,
        impulse: 10_000,
        viscosity: 500,
        damper: 500,
        strength_limit: 1000,
        radius_lower: 60_000,
        radius_upper: 125_000,
    }
}

fn table_with(slot: usize, entry: RuleEntry) -> RuleTable {
    let mut entries = vec![RuleEntry { strength: 0, radius: 0 }; NUM_RULES];
    entries[slot] = entry;
    RuleTable::from_entries(entries).unwrap()
}

fn at(x: i64, y: i64, kind: ParticleType) -> Particle {
    Particle { x, y, vx: 0, vy: 0, radius: 1000, kind }
}

fn two_reds() -> Engine {
    let rules = table_with(0, RuleEntry { strength: 1000, radius: 80_000 });
    let groups = vec![
        vec![at(0, 0, ParticleType::Red), at(10_000, 0, ParticleType::Red)],
        vec![],
        vec![],
        vec![],
    ];
    Engine::with_state(config(vec![2, 0, 0, 0]), rules, groups).unwrap()
}

#[test]
fn two_reds_one_tick() {
    let mut e = two_reds();
    e.tick();
    let g = e.groups();
    // dx = -10, distance 10, force 1/10 per unit of dx: fx = -1; halved by the
    // damper, halved again by the viscosity: vx = -0.25, then x = -0.25.
    assert_eq!(g[0][0], Particle { x: -250, y: 0, vx: -250, vy: 0, radius: 1000, kind: ParticleType::Red });
    assert_eq!(g[0][1], Particle { x: 10_250, y: 0, vx: 250, vy: 0, radius: 1000, kind: ParticleType::Red });
}

#[test]
fn tick_is_deterministic_and_matches_group_updates() {
    let mut c = config(vec![5, 4, 3, 2]);
    c.viscosity = 700;
    c.damper = 1000;
    let seed = Engine::new(c).unwrap();
    let groups = seed.snapshot_for_render();
    let mut a = Engine::with_state(config_like(&seed), clone_rules(&seed), groups.clone()).unwrap();
    let mut b = Engine::with_state(config_like(&seed), clone_rules(&seed), groups).unwrap();
    let parts: Vec<Vec<Particle>> = (0..4).rev().map(|t| b.update_group(t)).collect::<Vec<_>>().into_iter().rev().collect();
    a.tick();
    b.set_groups(parts).unwrap();
    assert_eq!(a.groups(), b.groups());
    let mut c2 = Engine::with_state(config_like(&seed), clone_rules(&seed), seed.snapshot_for_render()).unwrap();
    c2.tick();
    assert_eq!(a.groups(), c2.groups());
}

fn config_like(e: &Engine) -> Config {
    let c = e.config();
    Config {
        width: c.width,
        height: c.height,
        populations: c.populations.clone(),
        particle_radius: c.particle_radius,
        impulse: c.impulse,
        viscosity: c.viscosity,
        damper: c.damper,
        strength_limit: c.strength_limit,
        radius_lower: c.radius_lower,
        radius_upper: c.radius_upper,
    }
}

fn clone_rules(e: &Engine) -> RuleTable {
    let mut entries = vec![];
    for s in 0..4 {
        for t in 0..4 {
            entries.push(e.rules().entry(s, t));
        }
    }
    RuleTable::from_entries(entries).unwrap()
}

#[test]
fn no_radius_means_no_interaction() {
    let rules = RuleTable::from_entries(vec![RuleEntry { strength: 1000, radius: 0 }; NUM_RULES]).unwrap();
    let groups = vec![
        vec![at(100_000, 100_000, ParticleType::Red), at(101_000, 100_000, ParticleType::Red)],
        vec![at(100_500, 100_500, ParticleType::Green)],
        vec![],
        vec![at(-5000, 700_000, ParticleType::Yellow)],
    ];
    let mut e = Engine::with_state(config(vec![2, 1, 0, 1]), rules, groups).unwrap();
    e.tick();
    let g = e.groups();
    assert_eq!(g[0][0], at(100_000, 100_000, ParticleType::Red));
    assert_eq!(g[0][1], at(101_000, 100_000, ParticleType::Red));
    assert_eq!(g[1][0], at(100_500, 100_500, ParticleType::Green));
    // Only the boundary impulse moves the stray particle: +10 and -10, halved.
    assert_eq!(g[3][0], Particle { x: 0, y: 695_000, vx: 5000, vy: -5000, radius: 1000, kind: ParticleType::Yellow });
}

#[test]
fn lone_particle_feels_no_force() {
    let rules = RuleTable::from_entries(vec![RuleEntry { strength: 1_000_000, radius: 1_000_000 }; NUM_RULES]).unwrap();
    let groups = vec![vec![], vec![], vec![at(500_000, 300_000, ParticleType::Blue)], vec![]];
    let mut e = Engine::with_state(config(vec![0, 0, 1, 0]), rules, groups).unwrap();
    for _ in 0..100 {
        e.tick();
    }
    assert_eq!(e.groups()[2][0], at(500_000, 300_000, ParticleType::Blue));
}

#[test]
fn speeds_stay_bounded_over_many_ticks() {
    let mut c = config(vec![2, 2, 2, 2]);
    c.viscosity = 700;
    c.damper = 1000;
    c.width = 50_000;
    c.height = 50_000;
    let mut e = Engine::new(c).unwrap();
    // bound * 0.7 >= (impulse + 8 particles * strength 1) * 0.3
    let bound = (10_000 + 8 * 1000) * 300 / 700 + 1;
    for _ in 0..1000 {
        e.tick();
        for g in e.groups() {
            for p in g {
                assert!(p.vx.abs() <= bound && p.vy.abs() <= bound);
            }
        }
    }
}

#[test]
fn population_is_kept_across_ticks() {
    let mut e = Engine::new(config(vec![7, 0, 3, 11])).unwrap();
    for _ in 0..50 {
        e.tick();
    }
    let g = e.groups();
    assert_eq!(g.iter().map(|g| g.len()).collect::<Vec<_>>(), vec![7, 0, 3, 11]);
    for (t, group) in g.iter().enumerate() {
        for p in group {
            assert_eq!(p.kind, ParticleType::from_index(t));
        }
    }
}

#[test]
fn reset_restarts_at_rest() {
    let mut e = Engine::new(config(vec![4, 5, 6, 7])).unwrap();
    for _ in 0..20 {
        e.tick();
    }
    e.reset();
    let g = e.snapshot_for_render();
    assert_eq!(g.iter().map(|g| g.len()).collect::<Vec<_>>(), vec![4, 5, 6, 7]);
    for group in &g {
        for p in group {
            assert_eq!((p.vx, p.vy), (0, 0));
            assert!(0 <= p.x && p.x < 1_000_000 && 0 <= p.y && p.y < 600_000);
            assert_eq!(p.radius, 1000);
        }
    }
    for s in 0..4 {
        for t in 0..4 {
            let r = e.rules().entry(s, t);
            assert!(-1000 <= r.strength && r.strength < 1000);
            assert!(60_000 <= r.radius && r.radius < 125_000);
        }
    }
}

#[test]
fn new_places_particles_in_the_box() {
    let e = Engine::new(config(vec![30, 0, 0, 0])).unwrap();
    let xs: Vec<i64> = e.groups()[0].iter().map(|p| p.x).collect();
    assert!(xs.iter().all(|&x| 0 <= x && x < 1_000_000));
    assert!(xs.iter().any(|&x| x != 0));
}

#[test]
fn config_errors_are_reported() {
    let mut c = config(vec![1, 1, 1, 1]);
    c.width = 0;
    assert_eq!(c.validate(), Err(ConfigError::Viewport));
    let c = config(vec![1, 1, 1]);
    assert_eq!(c.validate(), Err(ConfigError::Populations));
    let mut c = config(vec![1, 1, 1, 1]);
    c.particle_radius = -1;
    assert_eq!(c.validate(), Err(ConfigError::ParticleRadius));
    let mut c = config(vec![1, 1, 1, 1]);
    c.impulse = -1;
    assert_eq!(c.validate(), Err(ConfigError::Impulse));
    let mut c = config(vec![1, 1, 1, 1]);
    c.viscosity = 1000;
    assert_eq!(c.validate(), Err(ConfigError::Viscosity));
    let mut c = config(vec![1, 1, 1, 1]);
    c.damper = 1001;
    assert_eq!(c.validate(), Err(ConfigError::Damper));
    let mut c = config(vec![1, 1, 1, 1]);
    c.strength_limit = -5;
    assert_eq!(c.validate(), Err(ConfigError::Rules(RuleError::StrengthOutOfRange)));
    let mut c = config(vec![1, 1, 1, 1]);
    c.radius_lower = 200_000;
    assert_eq!(c.validate(), Err(ConfigError::Rules(RuleError::RadiusOutOfRange)));
    assert_eq!(config(vec![1, 1, 1, 1]).validate(), Ok(()));
    let mut c = config(vec![1, 1, 1, 1]);
    c.radius_lower = 200_000;
    assert!(matches!(Engine::new(c), Err(ConfigError::Rules(RuleError::RadiusOutOfRange))));
}

#[test]
fn groups_that_do_not_fit_are_refused() {
    let rules = table_with(0, RuleEntry { strength: 1, radius: 1 });
    let wrong_kind = vec![vec![at(0, 0, ParticleType::Green)], vec![], vec![], vec![]];
    assert!(matches!(
        Engine::with_state(config(vec![1, 0, 0, 0]), rules, wrong_kind),
        Err(EngineError::Groups)
    ));
    let mut e = two_reds();
    let before = e.snapshot_for_render();
    let too_few = vec![vec![at(0, 0, ParticleType::Red)], vec![], vec![], vec![]];
    assert_eq!(e.set_groups(too_few), Err(EngineError::Groups));
    let far = vec![vec![at(2_000_000_000_000, 0, ParticleType::Red), at(0, 0, ParticleType::Red)], vec![], vec![], vec![]];
    assert_eq!(e.set_groups(far), Err(EngineError::Groups));
    assert_eq!(e.groups(), &before);
    let mut c = config(vec![0, 0, 0, 0]);
    c.viscosity = -1;
    let rules = table_with(0, RuleEntry { strength: 1, radius: 1 });
    assert!(matches!(
        Engine::with_state(c, rules, vec![vec![], vec![], vec![], vec![]]),
        Err(EngineError::Config(ConfigError::Viscosity))
    ));
}

#[test]
fn particles_beyond_the_radius_do_not_interact() {
    let rules = table_with(0, RuleEntry { strength: 1000, radius: 10_000 });
    let groups = vec![
        vec![at(100_000, 100_000, ParticleType::Red), at(110_000, 100_000, ParticleType::Red)],
        vec![],
        vec![],
        vec![],
    ];
    let mut e = Engine::with_state(config(vec![2, 0, 0, 0]), rules, groups).unwrap();
    e.tick();
    assert_eq!(e.groups()[0][0], at(100_000, 100_000, ParticleType::Red));
}

#[test]
fn asymmetric_rules_act_one_way() {
    // Red pulls on green (source red, target green: slot 0 * 4 + 1); green
    // exerts nothing on red.
    let rules = table_with(1, RuleEntry { strength: -1000, radius: 80_000 });
    let groups = vec![
        vec![at(100_000, 100_000, ParticleType::Red)],
        vec![at(100_000, 103_000, ParticleType::Green)],
        vec![],
        vec![],
    ];
    let mut e = Engine::with_state(config(vec![1, 1, 0, 0]), rules, groups).unwrap();
    e.tick();
    let g = e.groups();
    assert_eq!(g[0][0], at(100_000, 100_000, ParticleType::Red));
    // dy = 3, distance 3: fy = -1 * 3 / 3 = -1, times 0.5 and 0.5.
    assert_eq!(g[1][0], Particle { x: 100_000, y: 102_750, vx: 0, vy: -250, radius: 1000, kind: ParticleType::Green });
}
