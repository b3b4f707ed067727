use vstd::prelude::*;
use crate::agent::{InfectionStatus, Meeple, DirectedMover, population_wf};
use crate::config::{PROBABILITY_SCALE, SimConfig};
use crate::geometry::Point;
use crate::random::random_below;

verus! {

/// A new agent, from the draws for its two coordinates (each below the arena's
/// side) and the draw that decides whether it starts infected.
pub open spec fn spawned(cfg: SimConfig, rx: u64, ry: u64, rinf: u64) -> Meeple {
    let p = Point { x: (cfg.min_x_spec() + rx) as i64, y: (cfg.min_y_spec() + ry) as i64 };
    Meeple {
        position: p,
        status: if rinf < cfg.start_infected_chance {
            InfectionStatus::Infected
        } else {
            InfectionStatus::Susceptible
        },
        mover: DirectedMover { speed: cfg.speed, target_location: p },
    }
}

/// What spawning may make: the agent for some admissible draws.
pub open spec fn spawned_somehow(cfg: SimConfig, m: Meeple) -> bool {
    exists|rx: u64, ry: u64, rinf: u64|
        rx < cfg.arena_side && ry < cfg.arena_side && rinf < PROBABILITY_SCALE && m
            == #[trigger] spawned(cfg, rx, ry, rinf)
}

/// A new agent, standing still on a point of the arena.
pub fn spawn_meeple(cfg: &SimConfig, rx: u64, ry: u64, rinf: u64) -> (r: Meeple)
    requires
        cfg.valid(),
        rx < cfg.arena_side,
        ry < cfg.arena_side,
    ensures
        r == spawned(*cfg, rx, ry, rinf),
        r.wf(),
        cfg.in_arena(r.position),
{
    let half: i64 = (cfg.arena_side / 2) as i64;
    let p = Point { x: cfg.arena_center.x - half + rx as i64, y: cfg.arena_center.y - half + ry as i64 };
    let status = if rinf < cfg.start_infected_chance as u64 {
        InfectionStatus::Infected
    } else {
        InfectionStatus::Susceptible
    };
    Meeple { position: p, status, mover: DirectedMover { speed: cfg.speed, target_location: p } }
}

/// The initial population: `cfg.population` agents, each on a uniformly drawn
/// point of the arena, at rest on its own position, and infected with the
/// configured starting chance.
pub fn spawn_meeples(cfg: &SimConfig) -> (r: Vec<Meeple>)
    requires
        cfg.valid(),
    ensures
        r@.len() == cfg.population,
        population_wf(r@),
        forall|k: int| 0 <= k < r@.len() ==> spawned_somehow(*cfg, #[trigger] r@[k]),
        forall|k: int| 0 <= k < r@.len() ==> cfg.in_arena(#[trigger] r@[k].position),
{
    let mut agents: Vec<Meeple> = Vec::new();
    let mut i: usize = 0;
    while i < cfg.population
        invariant
            cfg.valid(),
            0 <= i <= cfg.population,
            agents@.len() == i,
            population_wf(agents@),
            forall|k: int| 0 <= k < i ==> spawned_somehow(*cfg, #[trigger] agents@[k]),
            forall|k: int| 0 <= k < i ==> cfg.in_arena(#[trigger] agents@[k].position),
        decreases cfg.population - i,
    {
        let rx = random_below(cfg.arena_side);
        let ry = random_below(cfg.arena_side);
        let rinf = random_below(PROBABILITY_SCALE as u64);
        let m = spawn_meeple(cfg, rx, ry, rinf);
        assert(spawned_somehow(*cfg, m));
        agents.push(m);
        i = i + 1;
    }
    agents
}

} // verus!
