use vstd::prelude::*;
use crate::agent::{Meeple, DirectedMover, population_wf};
use crate::config::SimConfig;
use crate::geometry::{Point, WORLD_LIMIT, in_world_range, clamp_world, clamp_to_world};

verus! {

/// One axis of the boundary clamp: a position below `lo` pushes the target up
/// by `step`, one above `hi` pushes it down, each kept in the world.
pub open spec fn nudge(p: int, t: int, lo: int, hi: int, step: int) -> int {
    if p < lo {
        clamp_world(t + step)
    } else if p > hi {
        clamp_world(t - step)
    } else {
        t
    }
}

/// The agent after the boundary clamp: only its target may change.
pub open spec fn kept_in_box(m: Meeple, cfg: SimConfig) -> Meeple {
    m.heading(
        Point {
            x: nudge(
                m.position.x as int,
                m.target().x as int,
                cfg.min_x_spec(),
                cfg.max_x_spec(),
                cfg.step_size as int,
            ) as i64,
            y: nudge(
                m.position.y as int,
                m.target().y as int,
                cfg.min_y_spec(),
                cfg.max_y_spec(),
                cfg.step_size as int,
            ) as i64,
        },
    )
}

fn nudge_component(p: i64, t: i64, lo: i64, hi: i64, step: u64) -> (r: i64)
    requires
        in_world_range(t as int),
        step <= WORLD_LIMIT,
    ensures
        r == nudge(p as int, t as int, lo as int, hi as int, step as int),
{
    if p < lo {
        clamp_to_world(t + step as i64)
    } else if p > hi {
        clamp_to_world(t - step as i64)
    } else {
        t
    }
}

/// Turns an agent that stands outside the arena back toward it, by moving its
/// target one wander step inward on each axis where it is out.
pub fn keep_meeple_in_box(m: Meeple, cfg: &SimConfig) -> (r: Meeple)
    requires
        cfg.valid(),
        m.wf(),
    ensures
        r == kept_in_box(m, *cfg),
        r.wf(),
{
    let half: i64 = (cfg.arena_side / 2) as i64;
    let cx = cfg.arena_center.x;
    let cy = cfg.arena_center.y;
    let t = m.mover.target_location;
    let x = nudge_component(m.position.x, t.x, cx - half, cx + half, cfg.step_size);
    let y = nudge_component(m.position.y, t.y, cy - half, cy + half, cfg.step_size);
    Meeple {
        position: m.position,
        status: m.status,
        mover: DirectedMover { speed: m.mover.speed, target_location: Point { x, y } },
    }
}

/// One tick of the boundary clamp over the whole population.
pub fn keep_meeples_in_box(agents: &mut Vec<Meeple>, cfg: &SimConfig)
    requires
        cfg.valid(),
        population_wf(old(agents)@),
    ensures
        final(agents)@.len() == old(agents)@.len(),
        population_wf(final(agents)@),
        forall|k: int|
            0 <= k < final(agents)@.len() ==> final(agents)@[k] == kept_in_box(
                #[trigger] old(agents)@[k],
                *cfg,
            ),
{
    let n = agents.len();
    let mut i: usize = 0;
    while i < n
        invariant
            n == agents@.len() == old(agents)@.len(),
            0 <= i <= n,
            cfg.valid(),
            population_wf(agents@),
            forall|k: int| i <= k < n ==> agents@[k] == old(agents)@[k],
            forall|k: int|
                0 <= k < i ==> agents@[k] == kept_in_box(#[trigger] old(agents)@[k], *cfg),
        decreases n - i,
    {
        let r = keep_meeple_in_box(agents[i], cfg);
        agents[i] = r;
        i = i + 1;
    }
}

/// An agent left of the arena, and level with it, has its target moved right
/// by exactly one wander step, with its y unchanged, as long as the new target
/// stays in the world.
pub proof fn lemma_nudged_back_from_the_left(m: Meeple, cfg: SimConfig)
    requires
        cfg.valid(),
        m.wf(),
        m.position.x < cfg.min_x_spec(),
        cfg.min_y_spec() <= m.position.y <= cfg.max_y_spec(),
        m.target().x + cfg.step_size <= WORLD_LIMIT,
    ensures
        kept_in_box(m, cfg).target().x == m.target().x + cfg.step_size,
        kept_in_box(m, cfg).target().y == m.target().y,
        kept_in_box(m, cfg).position == m.position,
{
}

} // verus!
