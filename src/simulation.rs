use vstd::prelude::*;
use crate::agent::{InfectionStatus, Meeple, population_wf, status_step};
use crate::boundary::{keep_meeples_in_box, kept_in_box};
use crate::config::{PROBABILITY_SCALE, SimConfig};
use crate::geometry::dist2;
use crate::motion::{motion_bounded, move_meeples, moved, moved_somehow, reach};
use crate::transmission::{has_carrier, in_contact, same_but_status, spread_infection};

verus! {

/// What one tick may make of agent `m`, status aside: it moves for some pair of
/// re-target draws, then the boundary clamp adjusts its target.
pub open spec fn ticked_somehow(m: Meeple, n: Meeple, cfg: SimConfig, dt: u64) -> bool {
    exists|rx: u64, ry: u64|
        rx < cfg.step_size && ry < cfg.step_size && same_but_status(
            kept_in_box(#[trigger] moved(m, dt, cfg.step_size, rx, ry), cfg),
            n,
        )
}

/// Some agent other than `k`, infected in `before`, is in contact with agent `k`
/// at the positions of `after`.
pub open spec fn carrier_in_reach(before: Seq<Meeple>, after: Seq<Meeple>, k: int, radius: u64) -> bool {
    exists|c: int|
        0 <= c < after.len() && c != k && (#[trigger] before[c]).status
            == InfectionStatus::Infected && in_contact(after[c].position, after[k].position, radius)
}

/// One tick of the simulation: motion, then the boundary clamp, then
/// transmission, each over the whole population. Transmission sees the moved
/// positions and the statuses of the start of the tick.
pub fn tick(agents: &mut Vec<Meeple>, cfg: &SimConfig, dt: u64)
    requires
        cfg.valid(),
        population_wf(old(agents)@),
    ensures
        final(agents)@.len() == old(agents)@.len(),
        population_wf(final(agents)@),
        forall|k: int|
            0 <= k < final(agents)@.len() ==> ticked_somehow(
                #[trigger] old(agents)@[k],
                final(agents)@[k],
                *cfg,
                dt,
            ),
        forall|k: int|
            0 <= k < final(agents)@.len() ==> #[trigger] final(agents)@[k].mover.speed == old(
                agents,
            )@[k].mover.speed,
        forall|k: int|
            0 <= k < final(agents)@.len() ==> dist2(
                #[trigger] old(agents)@[k].position,
                final(agents)@[k].position,
            ) <= reach(old(agents)@[k], dt) * reach(old(agents)@[k], dt),
        forall|k: int|
            0 <= k < final(agents)@.len() ==> status_step(
                #[trigger] old(agents)@[k].status,
                final(agents)@[k].status,
            ),
        forall|k: int|
            0 <= k < final(agents)@.len() && #[trigger] final(agents)@[k].status
                == InfectionStatus::Infected && old(agents)@[k].status
                == InfectionStatus::Susceptible ==> carrier_in_reach(
                old(agents)@,
                final(agents)@,
                k,
                cfg.contact_radius,
            ),
        cfg.transmission_chance == 0 ==> forall|k: int|
            0 <= k < final(agents)@.len() ==> #[trigger] final(agents)@[k].status == old(
                agents,
            )@[k].status,
        cfg.transmission_chance == PROBABILITY_SCALE ==> forall|c: int, k: int|
            0 <= c < final(agents)@.len() && 0 <= k < final(agents)@.len() && old(agents)@[c].status
                == InfectionStatus::Infected && old(agents)@[k].status
                == InfectionStatus::Susceptible && in_contact(
                #[trigger] final(agents)@[c].position,
                #[trigger] final(agents)@[k].position,
                cfg.contact_radius,
            ) ==> final(agents)@[k].status == InfectionStatus::Infected,
{
    let ghost o = agents@;
    move_meeples(agents, cfg, dt);
    let ghost walked = agents@;
    keep_meeples_in_box(agents, cfg);
    let ghost kept = agents@;
    spread_infection(agents, cfg);
    proof {
        lemma_tick_motion(o, walked, kept, agents@, *cfg, dt);
        lemma_tick_statuses(o, kept, agents@, *cfg);
    }
}

proof fn lemma_tick_motion(
    o: Seq<Meeple>,
    walked: Seq<Meeple>,
    kept: Seq<Meeple>,
    f: Seq<Meeple>,
    cfg: SimConfig,
    dt: u64,
)
    requires
        walked.len() == o.len(),
        kept.len() == o.len(),
        f.len() == o.len(),
        forall|k: int| 0 <= k < o.len() ==> moved_somehow(#[trigger] o[k], walked[k], dt, cfg.step_size),
        forall|k: int| 0 <= k < o.len() ==> motion_bounded(#[trigger] o[k], walked[k], dt),
        forall|k: int| 0 <= k < o.len() ==> #[trigger] kept[k] == kept_in_box(walked[k], cfg),
        forall|k: int| 0 <= k < o.len() ==> same_but_status(#[trigger] kept[k], f[k]),
    ensures
        forall|k: int| 0 <= k < o.len() ==> ticked_somehow(#[trigger] o[k], f[k], cfg, dt),
        forall|k: int| 0 <= k < o.len() ==> #[trigger] f[k].mover.speed == o[k].mover.speed,
        forall|k: int|
            0 <= k < o.len() ==> dist2(#[trigger] o[k].position, f[k].position) <= reach(o[k], dt)
                * reach(o[k], dt),
        forall|k: int|
            0 <= k < o.len() ==> #[trigger] kept[k].status == o[k].status && kept[k].position
                == f[k].position,
{
    assert forall|k: int| #![trigger o[k]] 0 <= k < o.len() implies {
        &&& ticked_somehow(o[k], f[k], cfg, dt)
        &&& f[k].mover.speed == o[k].mover.speed
        &&& f[k].position == walked[k].position
        &&& kept[k].status == o[k].status
        &&& kept[k].position == f[k].position
    } by {
        let (rx, ry) = choose|rx: u64, ry: u64|
            rx < cfg.step_size && ry < cfg.step_size && walked[k] == moved(
                o[k],
                dt,
                cfg.step_size,
                rx,
                ry,
            );
        assert(walked[k].status == o[k].status);
        assert(kept[k] == kept_in_box(walked[k], cfg));
        assert(same_but_status(kept[k], f[k]));
    }
    assert forall|k: int| 0 <= k < o.len() implies #[trigger] kept[k].status == o[k].status
        && kept[k].position == f[k].position by {
        assert(o[k] == o[k]);
    }
}

proof fn lemma_tick_statuses(o: Seq<Meeple>, kept: Seq<Meeple>, f: Seq<Meeple>, cfg: SimConfig)
    requires
        kept.len() == o.len(),
        f.len() == o.len(),
        forall|k: int|
            0 <= k < o.len() ==> #[trigger] kept[k].status == o[k].status && kept[k].position
                == f[k].position,
        forall|k: int| 0 <= k < o.len() ==> status_step(#[trigger] kept[k].status, f[k].status),
        forall|k: int|
            0 <= k < o.len() && #[trigger] f[k].status == InfectionStatus::Infected
                && kept[k].status == InfectionStatus::Susceptible ==> has_carrier(
                kept,
                k,
                cfg.contact_radius,
            ),
        cfg.transmission_chance == 0 ==> forall|k: int|
            0 <= k < o.len() ==> #[trigger] f[k].status == kept[k].status,
        cfg.transmission_chance == PROBABILITY_SCALE ==> forall|c: int, k: int|
            0 <= c < o.len() && 0 <= k < o.len() && kept[c].status == InfectionStatus::Infected
                && kept[k].status == InfectionStatus::Susceptible && in_contact(
                #[trigger] kept[c].position,
                #[trigger] kept[k].position,
                cfg.contact_radius,
            ) ==> f[k].status == InfectionStatus::Infected,
    ensures
        forall|k: int| 0 <= k < o.len() ==> status_step(#[trigger] o[k].status, f[k].status),
        forall|k: int|
            0 <= k < o.len() && #[trigger] f[k].status == InfectionStatus::Infected && o[k].status
                == InfectionStatus::Susceptible ==> carrier_in_reach(o, f, k, cfg.contact_radius),
        cfg.transmission_chance == 0 ==> forall|k: int|
            0 <= k < o.len() ==> #[trigger] f[k].status == o[k].status,
        cfg.transmission_chance == PROBABILITY_SCALE ==> forall|c: int, k: int|
            0 <= c < o.len() && 0 <= k < o.len() && o[c].status == InfectionStatus::Infected
                && o[k].status == InfectionStatus::Susceptible && in_contact(
                #[trigger] f[c].position,
                #[trigger] f[k].position,
                cfg.contact_radius,
            ) ==> f[k].status == InfectionStatus::Infected,
{
    assert forall|k: int| 0 <= k < o.len() implies status_step(#[trigger] o[k].status, f[k].status) by {
        assert(kept[k].status == o[k].status);
    }
    assert forall|k: int|
        0 <= k < o.len() && #[trigger] f[k].status == InfectionStatus::Infected && o[k].status
            == InfectionStatus::Susceptible implies carrier_in_reach(o, f, k, cfg.contact_radius) by {
        assert(kept[k].status == o[k].status);
        let c = choose|c: int|
            0 <= c < kept.len() && c != k && (#[trigger] kept[c]).status
                == InfectionStatus::Infected && in_contact(kept[c].position, kept[k].position, cfg.contact_radius);
        assert(kept[c].status == o[c].status);
        assert(o[c].status == InfectionStatus::Infected);
    }
    if cfg.transmission_chance == 0 {
        assert forall|k: int| 0 <= k < o.len() implies #[trigger] f[k].status == o[k].status by {
            assert(kept[k].status == o[k].status);
        }
    }
    if cfg.transmission_chance == PROBABILITY_SCALE {
        assert forall|c: int, k: int|
            0 <= c < o.len() && 0 <= k < o.len() && o[c].status == InfectionStatus::Infected
                && o[k].status == InfectionStatus::Susceptible && in_contact(
                #[trigger] f[c].position,
                #[trigger] f[k].position,
                cfg.contact_radius,
            ) implies f[k].status == InfectionStatus::Infected by {
            assert(kept[c].status == o[c].status);
            assert(kept[k].status == o[k].status);
            assert(in_contact(kept[c].position, kept[k].position, cfg.contact_radius));
        }
    }
}

/// Each snapshot of `run` has as many agents as the first, and each agent's
/// status moves by a legal step from one snapshot to the next, as `tick` ensures.
pub open spec fn stepwise_statuses(run: Seq<Seq<Meeple>>) -> bool {
    forall|t: int|
        #![trigger run[t]]
        0 < t < run.len() ==> run[t].len() == run[0].len() && forall|k: int|
            0 <= k < run[0].len() ==> status_step(
                #[trigger] run[t - 1][k].status,
                run[t][k].status,
            )
}

/// Over any number of ticks, no agent goes from infected back to susceptible
/// and none leaves the recovered state: from the first snapshot to the last,
/// each status either stays or goes from susceptible to infected.
pub proof fn lemma_status_monotone_over_run(run: Seq<Seq<Meeple>>)
    requires
        run.len() > 0,
        stepwise_statuses(run),
    ensures
        run.last().len() == run[0].len(),
        forall|k: int|
            0 <= k < run[0].len() ==> status_step(#[trigger] run[0][k].status, run.last()[k].status),
        forall|k: int|
            0 <= k < run[0].len() && run[0][k].status == InfectionStatus::Infected
                ==> #[trigger] run.last()[k].status == InfectionStatus::Infected,
        forall|k: int|
            0 <= k < run[0].len() && run[0][k].status == InfectionStatus::Recovered
                ==> #[trigger] run.last()[k].status == InfectionStatus::Recovered,
    decreases run.len(),
{
    if run.len() > 1 {
        let prefix = run.drop_last();
        assert forall|t: int| #![trigger prefix[t]] 0 < t < prefix.len() implies prefix[t].len()
            == prefix[0].len() && forall|k: int|
            0 <= k < prefix[0].len() ==> status_step(
                #[trigger] prefix[t - 1][k].status,
                prefix[t][k].status,
            ) by {
            assert(prefix[t] == run[t]);
            assert(prefix[t - 1] == run[t - 1]);
            assert(run[t].len() == run[0].len());
        }
        lemma_status_monotone_over_run(prefix);
        let t = run.len() - 1;
        assert(run[t].len() == run[0].len());
        assert forall|k: int| 0 <= k < run[0].len() implies status_step(
            #[trigger] run[0][k].status,
            run.last()[k].status,
        ) by {
            assert(status_step(prefix[0][k].status, prefix.last()[k].status));
            assert(status_step(run[t - 1][k].status, run[t][k].status));
        }
    }
}

} // verus!
