use meeples::agent::{DirectedMover, InfectionStatus, Meeple};
use meeples::boundary::{keep_meeple_in_box, keep_meeples_in_box};
use meeples::config::{ConfigError, SimConfig, PROBABILITY_SCALE};
use meeples::geometry::{ceil_sqrt, squared_distance, Point, WORLD_LIMIT};
use meeples::motion::{move_meeple, move_meeples};
use meeples::simulation::tick;
use meeples::spawn::{spawn_meeple, spawn_meeples};
use meeples::transmission::{draw_passes, expose, spread_infection, within_contact};

fn config(radius: u64, chance: u32, start_chance: u32) -> SimConfig {
    SimConfig::new(300, 40, 120, Point::new(-250, 0), 600, radius, chance, start_chance).unwrap()
}

fn agent(x: i64, y: i64, status: InfectionStatus) -> Meeple {
    let p = Point::new(x, y);
    Meeple { position: p, status, mover: DirectedMover { speed: 40, target_location: p } }
}

fn heading(x: i64, y: i64, tx: i64, ty: i64, speed: u64) -> Meeple {
    Meeple {
        position: Point::new(x, y),
        status: InfectionStatus::Susceptible,
        mover: DirectedMover { speed, target_location: Point::new(tx, ty) },
    }
}

fn dist2(a: Point, b: Point) -> i128 {
    let dx = (b.x - a.x) as i128;
    let dy = (b.y - a.y) as i128;
    dx * dx + dy * dy
}

#[test]
fn config_accepts_valid_settings() {
    let c = SimConfig::new(300, 40, 120, Point::new(-250, 0), 600, 20, 1000, 10000).unwrap();
    assert_eq!(c.population, 300);
    assert_eq!(c.speed, 40);
    assert_eq!(c.step_size, 120);
    assert_eq!(c.arena_center, Point::new(-250, 0));
    assert_eq!(c.arena_side, 600);
    assert_eq!(c.contact_radius, 20);
    assert_eq!(c.transmission_chance, 1000);
    assert_eq!(c.start_infected_chance, 10000);
}

#[test]
fn config_rejects_each_bad_setting() {
    let o = Point::new(0, 0);
    assert_eq!(SimConfig::new(0, 40, 120, o, 600, 20, 0, 0), Err(ConfigError::NonPositivePopulation));
    assert_eq!(SimConfig::new(3, 0, 120, o, 600, 20, 0, 0), Err(ConfigError::NonPositiveSpeed));
    assert_eq!(SimConfig::new(3, 40, 0, o, 600, 20, 0, 0), Err(ConfigError::NonPositiveStepSize));
    assert_eq!(SimConfig::new(3, 40, 120, o, 0, 20, 0, 0), Err(ConfigError::NonPositiveArenaSide));
    assert_eq!(
        SimConfig::new(3, 40, 120, o, 600, 20, PROBABILITY_SCALE + 1, 0),
        Err(ConfigError::ProbabilityOutOfRange)
    );
    assert_eq!(
        SimConfig::new(3, 40, 120, o, 600, 20, 0, PROBABILITY_SCALE + 1),
        Err(ConfigError::ProbabilityOutOfRange)
    );
    assert_eq!(
        SimConfig::new(3, 40, WORLD_LIMIT as u64 + 1, o, 600, 20, 0, 0),
        Err(ConfigError::OutsideWorld)
    );
    assert_eq!(
        SimConfig::new(3, 40, 120, Point::new(WORLD_LIMIT, 0), 600, 20, 0, 0),
        Err(ConfigError::OutsideWorld)
    );
    assert_eq!(
        SimConfig::new(3, 40, 120, o, u64::MAX, 20, 0, 0),
        Err(ConfigError::OutsideWorld)
    );
    // the first broken rule is the one reported
    assert_eq!(SimConfig::new(0, 0, 0, o, 0, 20, 0, 0), Err(ConfigError::NonPositivePopulation));
    // certainty is a valid probability
    assert!(SimConfig::new(3, 40, 120, o, 600, 20, PROBABILITY_SCALE, PROBABILITY_SCALE).is_ok());
}

#[test]
fn ceil_sqrt_exact_values() {
    assert_eq!(ceil_sqrt(0), 0);
    assert_eq!(ceil_sqrt(1), 1);
    assert_eq!(ceil_sqrt(2), 2);
    assert_eq!(ceil_sqrt(4), 2);
    assert_eq!(ceil_sqrt(5), 3);
    assert_eq!(ceil_sqrt(24), 5);
    assert_eq!(ceil_sqrt(25), 5);
    assert_eq!(ceil_sqrt(26), 6);
    assert_eq!(ceil_sqrt(1000100), 1001);
    assert_eq!(ceil_sqrt(1u64 << 62), 1u64 << 31);
    assert_eq!(ceil_sqrt(u64::MAX), 1u64 << 32);
}

#[test]
fn squared_distance_values() {
    assert_eq!(squared_distance(Point::new(0, 0), Point::new(3, 4)), 25);
    assert_eq!(squared_distance(Point::new(-3, 4), Point::new(0, 0)), 25);
    let far = squared_distance(Point::new(-WORLD_LIMIT, -WORLD_LIMIT), Point::new(WORLD_LIMIT, WORLD_LIMIT));
    assert_eq!(far, 8 * (WORLD_LIMIT as u64) * (WORLD_LIMIT as u64));
}

#[test]
fn move_advances_along_the_line() {
    let m = heading(0, 0, 300, 400, 40);
    let r = move_meeple(m, 1, 120, 0, 0);
    assert_eq!(r.position, Point::new(24, 32));
    assert_eq!(r.mover, m.mover);
    assert_eq!(r.status, m.status);
    let m = heading(0, 0, -300, -400, 40);
    let r = move_meeple(m, 1, 120, 0, 0);
    assert_eq!(r.position, Point::new(-24, -32));
}

#[test]
fn move_rounds_toward_the_start() {
    let m = heading(0, 0, 10, 1000, 3);
    let r = move_meeple(m, 1, 120, 0, 0);
    assert_eq!(r.position, Point::new(0, 2));
    assert!(dist2(m.position, r.position) <= 9);
}

#[test]
fn move_snaps_onto_a_target_in_reach() {
    let m = heading(0, 0, 30, 40, 50);
    let r = move_meeple(m, 1, 120, 0, 0);
    assert_eq!(r.position, Point::new(30, 40));
    // just short of reach
    let m = heading(0, 0, 30, 40, 20);
    let r = move_meeple(m, 3, 120, 0, 0);
    assert_eq!(r.position, Point::new(30, 40));
    let m = heading(7, -7, 8, -7, 1);
    let r = move_meeple(m, 1, 120, 0, 0);
    assert_eq!(r.position, Point::new(8, -7));
}

#[test]
fn move_retargets_an_agent_on_its_target() {
    let m = heading(10, 20, 10, 20, 40);
    let r = move_meeple(m, 1, 120, 0, 119);
    assert_eq!(r.position, Point::new(10, 20));
    assert_eq!(r.mover.target_location, Point::new(-50, 79));
    assert_eq!(r.mover.speed, 40);
    // a fresh target never leaves the world
    let m = heading(WORLD_LIMIT, -WORLD_LIMIT, WORLD_LIMIT, -WORLD_LIMIT, 40);
    let r = move_meeple(m, 1, 120, 119, 0);
    assert_eq!(r.mover.target_location, Point::new(WORLD_LIMIT, -WORLD_LIMIT));
}

#[test]
fn move_never_stalls_when_both_roundings_vanish() {
    let m = heading(0, 0, 3, 4, 1);
    let r = move_meeple(m, 1, 120, 0, 0);
    assert_eq!(r.position, Point::new(0, 1));
    let m = heading(0, 0, -4, 3, 1);
    let r = move_meeple(m, 1, 120, 0, 0);
    assert_eq!(r.position, Point::new(-1, 0));
}

#[test]
fn slow_agent_outside_the_arena_comes_back() {
    // the arena spans x in [-550, 50]
    let cfg = SimConfig::new(1, 1, 120, Point::new(-250, 0), 600, 20, 0, 0).unwrap();
    let mut agents = vec![heading(-560, 0, -559, 5, 1)];
    let mut back = false;
    for _ in 0..200 {
        tick(&mut agents, &cfg, 1);
        if agents[0].position.x >= -550 {
            back = true;
            break;
        }
    }
    assert!(back);
}

#[test]
fn move_with_zero_time_stays_put() {
    let m = heading(0, 0, 300, 400, 40);
    let r = move_meeple(m, 0, 120, 0, 0);
    assert_eq!(r, m);
}

#[test]
fn move_meeples_never_overshoots() {
    let cfg = config(20, 0, 0);
    let mut agents = vec![heading(0, 0, 300, 400, 40), heading(5, 5, 5, 5, 40), heading(0, 0, 3, 4, 40)];
    for _ in 0..200 {
        let before = agents.clone();
        move_meeples(&mut agents, &cfg, 2);
        assert_eq!(agents.len(), before.len());
        for (a, b) in before.iter().zip(agents.iter()) {
            assert!(dist2(a.position, b.position) <= 80 * 80);
            if dist2(a.position, a.mover.target_location) <= 80 * 80 {
                assert_eq!(b.position, a.mover.target_location);
            }
            if a.position == a.mover.target_location {
                let t = b.mover.target_location;
                assert!(t.x >= a.position.x - 60 && t.x < a.position.x + 60);
                assert!(t.y >= a.position.y - 60 && t.y < a.position.y + 60);
            }
        }
    }
}

#[test]
fn containment_nudges_target_inward_on_x() {
    let cfg = config(20, 0, 0);
    // the arena spans x in [-550, 50] and y in [-300, 300]
    let m = agent(-551, 0, InfectionStatus::Susceptible);
    let r = keep_meeple_in_box(m, &cfg);
    assert_eq!(r.mover.target_location, Point::new(-551 + 120, 0));
    assert_eq!(r.position, m.position);
    let m = agent(51, 0, InfectionStatus::Susceptible);
    let r = keep_meeple_in_box(m, &cfg);
    assert_eq!(r.mover.target_location, Point::new(51 - 120, 0));
}

#[test]
fn containment_corrects_both_axes_at_a_corner() {
    let cfg = config(20, 0, 0);
    let m = agent(-551, 301, InfectionStatus::Infected);
    let r = keep_meeple_in_box(m, &cfg);
    assert_eq!(r.mover.target_location, Point::new(-431, 181));
    let m = agent(60, -400, InfectionStatus::Infected);
    let r = keep_meeple_in_box(m, &cfg);
    assert_eq!(r.mover.target_location, Point::new(-60, -280));
}

#[test]
fn containment_leaves_agents_inside_alone() {
    let cfg = config(20, 0, 0);
    let mut agents = vec![
        heading(-550, 300, 900, 900, 40),
        heading(50, -300, -900, 0, 40),
        heading(-250, 0, -250, 0, 40),
    ];
    let before = agents.clone();
    keep_meeples_in_box(&mut agents, &cfg);
    assert_eq!(agents, before);
}

#[test]
fn one_probability_infects_a_neighbour() {
    let cfg = SimConfig::new(2, 40, 120, Point::new(0, 0), 600, 10, PROBABILITY_SCALE, 0).unwrap();
    let mut agents = vec![
        agent(0, 0, InfectionStatus::Infected),
        agent(5, 0, InfectionStatus::Susceptible),
    ];
    spread_infection(&mut agents, &cfg);
    assert_eq!(agents[1].status, InfectionStatus::Infected);
    assert_eq!(agents[0].status, InfectionStatus::Infected);
    assert_eq!(agents[1].position, Point::new(5, 0));
}

#[test]
fn one_probability_spares_agents_out_of_range() {
    let cfg = SimConfig::new(3, 40, 120, Point::new(0, 0), 600, 10, PROBABILITY_SCALE, 0).unwrap();
    let mut agents = vec![
        agent(0, 0, InfectionStatus::Infected),
        agent(11, 0, InfectionStatus::Susceptible),
        agent(6, 8, InfectionStatus::Recovered),
    ];
    spread_infection(&mut agents, &cfg);
    assert_eq!(agents[1].status, InfectionStatus::Susceptible);
    assert_eq!(agents[2].status, InfectionStatus::Recovered);
}

#[test]
fn newly_infected_agents_wait_for_the_next_tick() {
    let cfg = SimConfig::new(3, 40, 120, Point::new(0, 0), 600, 10, PROBABILITY_SCALE, 0).unwrap();
    let mut agents = vec![
        agent(0, 0, InfectionStatus::Infected),
        agent(5, 0, InfectionStatus::Susceptible),
        agent(12, 0, InfectionStatus::Susceptible),
    ];
    spread_infection(&mut agents, &cfg);
    assert_eq!(agents[1].status, InfectionStatus::Infected);
    assert_eq!(agents[2].status, InfectionStatus::Susceptible);
    spread_infection(&mut agents, &cfg);
    assert_eq!(agents[2].status, InfectionStatus::Infected);
}

#[test]
fn no_carrier_means_no_change() {
    let cfg = SimConfig::new(3, 40, 120, Point::new(0, 0), 600, 10, PROBABILITY_SCALE, 0).unwrap();
    let mut agents = vec![
        agent(0, 0, InfectionStatus::Susceptible),
        agent(1, 0, InfectionStatus::Susceptible),
        agent(2, 0, InfectionStatus::Recovered),
    ];
    let before = agents.clone();
    spread_infection(&mut agents, &cfg);
    assert_eq!(agents, before);
}

#[test]
fn expose_applies_one_draw() {
    let cfg = SimConfig::new(2, 40, 120, Point::new(0, 0), 600, 10, 500000, 0).unwrap();
    let carrier = Point::new(0, 0);
    let base = vec![agent(0, 0, InfectionStatus::Infected), agent(6, 8, InfectionStatus::Susceptible)];
    let mut agents = base.clone();
    expose(&mut agents, &cfg, carrier, 1, 499999);
    assert_eq!(agents[1].status, InfectionStatus::Infected);
    assert_eq!(agents[1].position, Point::new(6, 8));
    let mut agents = base.clone();
    expose(&mut agents, &cfg, carrier, 1, 500000);
    assert_eq!(agents, base);
    // out of contact
    let mut agents = base.clone();
    expose(&mut agents, &cfg, Point::new(-1, 0), 1, 0);
    assert_eq!(agents, base);
    // a recovered agent is never infected
    let mut agents = vec![agent(0, 0, InfectionStatus::Infected), agent(1, 0, InfectionStatus::Recovered)];
    expose(&mut agents, &cfg, carrier, 1, 0);
    assert_eq!(agents[1].status, InfectionStatus::Recovered);
}

#[test]
fn zero_probability_never_infects() {
    let cfg = SimConfig::new(4, 40, 120, Point::new(0, 0), 600, 1000, 0, 0).unwrap();
    let mut agents = vec![
        agent(0, 0, InfectionStatus::Infected),
        agent(0, 0, InfectionStatus::Susceptible),
        agent(1, 1, InfectionStatus::Susceptible),
        agent(2, 2, InfectionStatus::Infected),
    ];
    for _ in 0..1000 {
        spread_infection(&mut agents, &cfg);
    }
    assert_eq!(agents[1].status, InfectionStatus::Susceptible);
    assert_eq!(agents[2].status, InfectionStatus::Susceptible);
}

#[test]
fn contact_and_draw_decisions() {
    assert!(within_contact(Point::new(0, 0), Point::new(6, 8), 10));
    assert!(!within_contact(Point::new(0, 0), Point::new(6, 9), 10));
    assert!(within_contact(Point::new(-WORLD_LIMIT, 0), Point::new(WORLD_LIMIT, 0), u64::MAX));
    assert!(draw_passes(0, 1));
    assert!(!draw_passes(1, 1));
    assert!(!draw_passes(0, 0));
    assert!(draw_passes(999999, PROBABILITY_SCALE));
}

#[test]
fn spawn_places_agents_in_the_arena() {
    let cfg = config(20, 1000, 10000);
    let agents = spawn_meeples(&cfg);
    assert_eq!(agents.len(), 300);
    for m in agents.iter() {
        assert!(m.position.x >= -550 && m.position.x <= 50);
        assert!(m.position.y >= -300 && m.position.y <= 300);
        assert_eq!(m.mover.target_location, m.position);
        assert_eq!(m.mover.speed, 40);
        assert!(m.status != InfectionStatus::Recovered);
    }
    let first = agents[0].position;
    assert!(agents.iter().any(|m| m.position != first));
}

#[test]
fn spawn_start_chance_extremes() {
    let none = spawn_meeples(&config(20, 0, 0));
    assert!(none.iter().all(|m| m.status == InfectionStatus::Susceptible));
    let all = spawn_meeples(&config(20, 0, PROBABILITY_SCALE));
    assert!(all.iter().all(|m| m.status == InfectionStatus::Infected));
}

#[test]
fn spawn_meeple_from_draws() {
    let cfg = config(20, 0, 10000);
    let m = spawn_meeple(&cfg, 0, 599, 9999);
    assert_eq!(m.position, Point::new(-550, 299));
    assert_eq!(m.mover.target_location, Point::new(-550, 299));
    assert_eq!(m.status, InfectionStatus::Infected);
    let m = spawn_meeple(&cfg, 300, 300, 10000);
    assert_eq!(m.position, Point::new(-250, 0));
    assert_eq!(m.status, InfectionStatus::Susceptible);
}

#[test]
fn ticks_keep_speed_statuses_and_reach() {
    let cfg = SimConfig::new(100, 3, 120, Point::new(0, 0), 200, 15, 200000, 100000).unwrap();
    let mut agents = spawn_meeples(&cfg);
    for _ in 0..300 {
        let before = agents.clone();
        tick(&mut agents, &cfg, 2);
        assert_eq!(agents.len(), 100);
        for (a, b) in before.iter().zip(agents.iter()) {
            assert!(dist2(a.position, b.position) <= 36);
            assert_eq!(a.mover.speed, b.mover.speed);
            if a.status == InfectionStatus::Infected {
                assert_eq!(b.status, InfectionStatus::Infected);
            }
            if b.status == InfectionStatus::Susceptible {
                assert_eq!(a.status, InfectionStatus::Susceptible);
            }
        }
    }
}

#[test]
fn containment_keeps_most_agents_inside_in_the_long_run() {
    let cfg = SimConfig::new(300, 2, 120, Point::new(-250, 0), 600, 20, 0, 0).unwrap();
    let mut agents = spawn_meeples(&cfg);
    let mut outside_total: usize = 0;
    let mut samples: usize = 0;
    for t in 0..4000 {
        tick(&mut agents, &cfg, 1);
        if t >= 2000 {
            outside_total += agents
                .iter()
                .filter(|m| m.position.x < -550 || m.position.x > 50 || m.position.y < -300 || m.position.y > 300)
                .count();
            samples += agents.len();
        }
    }
    assert!(outside_total * 10 < samples, "{} of {} outside", outside_total, samples);
}

#[test]
fn zero_probability_ticks_never_infect() {
    let cfg = SimConfig::new(60, 2, 40, Point::new(0, 0), 60, 30, 0, 500000).unwrap();
    let mut agents = spawn_meeples(&cfg);
    let start: Vec<InfectionStatus> = agents.iter().map(|m| m.status).collect();
    for _ in 0..500 {
        tick(&mut agents, &cfg, 1);
    }
    let end: Vec<InfectionStatus> = agents.iter().map(|m| m.status).collect();
    assert_eq!(start, end);
}
