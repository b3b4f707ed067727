use vstd::prelude::*;
use crate::agent::{InfectionStatus, Meeple, population_wf, status_step};
use crate::config::{PROBABILITY_SCALE, SimConfig};
use crate::geometry::{Point, dist2, squared_distance};
use crate::random::random_below;

verus! {

/// Two points are close enough for the infection to pass.
pub open spec fn in_contact(a: Point, b: Point, radius: u64) -> bool {
    dist2(a, b) <= radius * radius
}

/// `n` is `m` with, at most, another status.
pub open spec fn same_but_status(m: Meeple, n: Meeple) -> bool {
    n == m.with_status(n.status)
}

/// Agent `k` was susceptible at the start and catches the infection from one of
/// the agents `0..upto` that were infected at the start, in contact with it,
/// whose draw `u[c][k]` for the pair falls below the chance.
pub open spec fn caught(
    o: Seq<Meeple>,
    u: Seq<Seq<u64>>,
    radius: u64,
    chance: u32,
    k: int,
    upto: int,
) -> bool {
    o[k].status == InfectionStatus::Susceptible && exists|c: int|
        0 <= c < upto && (#[trigger] o[c]).status == InfectionStatus::Infected && in_contact(
            o[c].position,
            o[k].position,
            radius,
        ) && u[c][k] < chance
}

/// Agent `k`'s status once the carriers `0..upto` have had their turn.
pub open spec fn status_after(
    o: Seq<Meeple>,
    u: Seq<Seq<u64>>,
    radius: u64,
    chance: u32,
    k: int,
    upto: int,
) -> InfectionStatus {
    if caught(o, u, radius, chance, k, upto) {
        InfectionStatus::Infected
    } else {
        o[k].status
    }
}

/// `u` holds one draw from `0..PROBABILITY_SCALE` for each ordered pair of `n` agents.
pub open spec fn draws_fit(u: Seq<Seq<u64>>, n: int) -> bool {
    &&& u.len() == n
    &&& forall|a: int| 0 <= a < n ==> (#[trigger] u[a]).len() == n
    &&& forall|a: int, b: int| 0 <= a < n && 0 <= b < n ==> #[trigger] u[a][b] < PROBABILITY_SCALE
}

/// The population `f` after one transmission pass over `o`, given the pair draws `u`.
/// Carriers are the agents infected at the start of the pass.
#[verifier::opaque]
pub open spec fn pass_outcome(
    o: Seq<Meeple>,
    f: Seq<Meeple>,
    radius: u64,
    chance: u32,
    u: Seq<Seq<u64>>,
) -> bool {
    &&& draws_fit(u, o.len() as int)
    &&& f.len() == o.len()
    &&& forall|k: int|
        0 <= k < o.len() ==> #[trigger] f[k] == o[k].with_status(
            status_after(o, u, radius, chance, k, o.len() as int),
        )
}

/// One draw for one pair: agent `j` becomes infected when it is susceptible,
/// in contact with a carrier standing at `carrier`, and the draw passes the chance.
pub open spec fn exposed(
    agents: Seq<Meeple>,
    cfg: SimConfig,
    carrier: Point,
    j: int,
    sample: u64,
) -> Seq<Meeple> {
    if agents[j].status == InfectionStatus::Susceptible && in_contact(
        carrier,
        agents[j].position,
        cfg.contact_radius,
    ) && sample < cfg.transmission_chance {
        agents.update(j, agents[j].with_status(InfectionStatus::Infected))
    } else {
        agents
    }
}

proof fn lemma_caught_extend(
    o: Seq<Meeple>,
    u: Seq<Seq<u64>>,
    radius: u64,
    chance: u32,
    k: int,
    i: int,
)
    requires
        0 <= i,
    ensures
        caught(o, u, radius, chance, k, i + 1) == (caught(o, u, radius, chance, k, i) || (
        o[k].status == InfectionStatus::Susceptible && o[i].status == InfectionStatus::Infected
            && in_contact(o[i].position, o[k].position, radius) && u[i][k] < chance)),
{
    if caught(o, u, radius, chance, k, i + 1) && !caught(o, u, radius, chance, k, i) {
        let c = choose|c: int|
            0 <= c < i + 1 && (#[trigger] o[c]).status == InfectionStatus::Infected && in_contact(
                o[c].position,
                o[k].position,
                radius,
            ) && u[c][k] < chance;
        assert(c == i);
    }
    if o[k].status == InfectionStatus::Susceptible && o[i].status == InfectionStatus::Infected
        && in_contact(o[i].position, o[k].position, radius) && u[i][k] < chance {
        assert(o[i].status == InfectionStatus::Infected);
    }
}

proof fn lemma_caught_frame(
    o: Seq<Meeple>,
    u1: Seq<Seq<u64>>,
    u2: Seq<Seq<u64>>,
    radius: u64,
    chance: u32,
    k: int,
    upto: int,
)
    requires
        forall|c: int| 0 <= c < upto ==> #[trigger] u1[c][k] == u2[c][k],
    ensures
        caught(o, u1, radius, chance, k, upto) == caught(o, u2, radius, chance, k, upto),
{
    if caught(o, u1, radius, chance, k, upto) {
        let c = choose|c: int|
            0 <= c < upto && (#[trigger] o[c]).status == InfectionStatus::Infected && in_contact(
                o[c].position,
                o[k].position,
                radius,
            ) && u1[c][k] < chance;
        assert(u2[c][k] == u1[c][k]);
    }
    if caught(o, u2, radius, chance, k, upto) {
        let c = choose|c: int|
            0 <= c < upto && (#[trigger] o[c]).status == InfectionStatus::Infected && in_contact(
                o[c].position,
                o[k].position,
                radius,
            ) && u2[c][k] < chance;
        assert(u1[c][k] == u2[c][k]);
    }
}

/// Some other agent, infected in `agents`, is in contact with agent `k`.
pub open spec fn has_carrier(agents: Seq<Meeple>, k: int, radius: u64) -> bool {
    exists|c: int|
        0 <= c < agents.len() && c != k && (#[trigger] agents[c]).status
            == InfectionStatus::Infected && in_contact(agents[c].position, agents[k].position, radius)
}

/// Whether the two points are within `radius` of each other.
pub fn within_contact(a: Point, b: Point, radius: u64) -> (r: bool)
    requires
        a.in_world(),
        b.in_world(),
    ensures
        r == in_contact(a, b, radius),
{
    let d2 = squared_distance(a, b);
    proof {
        assert((radius as int) * (radius as int) <= u64::MAX * u64::MAX) by (nonlinear_arith)
            requires
                radius <= u64::MAX,
        ;
    }
    (d2 as u128) <= (radius as u128) * (radius as u128)
}

/// Whether a draw from `0..PROBABILITY_SCALE` passes a chance: it does when it
/// falls below it.
pub fn draw_passes(sample: u64, chance: u32) -> (r: bool)
    ensures
        r == (sample < chance),
{
    sample < chance as u64
}

/// Applies one draw for one pair: infects agent `j` when it is susceptible, in
/// contact with the carrier at `carrier`, and `sample` passes the chance.
pub fn expose(agents: &mut Vec<Meeple>, cfg: &SimConfig, carrier: Point, j: usize, sample: u64)
    requires
        j < old(agents)@.len(),
        carrier.in_world(),
        old(agents)@[j as int].wf(),
    ensures
        final(agents)@ == exposed(old(agents)@, *cfg, carrier, j as int, sample),
{
    let m = agents[j];
    if m.status == InfectionStatus::Susceptible && within_contact(
        carrier,
        m.position,
        cfg.contact_radius,
    ) && draw_passes(sample, cfg.transmission_chance) {
        agents[j] = Meeple { position: m.position, status: InfectionStatus::Infected, mover: m.mover };
    }
}

/// One tick of the transmission engine. The carriers are the agents infected
/// when the pass starts; for each carrier and each agent still susceptible in
/// contact with it, one draw from `0..PROBABILITY_SCALE` decides whether the
/// latter becomes infected.
pub fn spread_infection(agents: &mut Vec<Meeple>, cfg: &SimConfig)
    requires
        cfg.valid(),
        population_wf(old(agents)@),
    ensures
        final(agents)@.len() == old(agents)@.len(),
        population_wf(final(agents)@),
        exists|u: Seq<Seq<u64>>|
            pass_outcome(
                old(agents)@,
                final(agents)@,
                cfg.contact_radius,
                cfg.transmission_chance,
                u,
            ),
        forall|k: int|
            0 <= k < final(agents)@.len() ==> same_but_status(
                #[trigger] old(agents)@[k],
                final(agents)@[k],
            ),
        forall|k: int|
            0 <= k < final(agents)@.len() ==> status_step(
                #[trigger] old(agents)@[k].status,
                final(agents)@[k].status,
            ),
        forall|k: int|
            0 <= k < final(agents)@.len() && #[trigger] final(agents)@[k].status
                == InfectionStatus::Infected && old(agents)@[k].status
                == InfectionStatus::Susceptible ==> has_carrier(
                old(agents)@,
                k,
                cfg.contact_radius,
            ),
        cfg.transmission_chance == 0 ==> forall|k: int|
            0 <= k < final(agents)@.len() ==> #[trigger] final(agents)@[k].status == old(
                agents,
            )@[k].status,
        cfg.transmission_chance == PROBABILITY_SCALE ==> forall|c: int, k: int|
            0 <= c < final(agents)@.len() && 0 <= k < final(agents)@.len() && old(agents)@[c].status
                == InfectionStatus::Infected && old(agents)@[k].status
                == InfectionStatus::Susceptible && in_contact(
                #[trigger] old(agents)@[c].position,
                #[trigger] old(agents)@[k].position,
                cfg.contact_radius,
            ) ==> final(agents)@[k].status == InfectionStatus::Infected,
{
    let ghost o = agents@;
    let radius = cfg.contact_radius;
    let chance = cfg.transmission_chance;
    let n = agents.len();
    let mut carriers: Vec<bool> = Vec::new();
    let mut k: usize = 0;
    while k < n
        invariant
            n == agents@.len() == o.len(),
            agents@ == o,
            0 <= k <= n,
            carriers@.len() == k,
            forall|c: int| 0 <= c < k ==> #[trigger] carriers@[c] == (o[c].status
                == InfectionStatus::Infected),
        decreases n - k,
    {
        carriers.push(agents[k].status == InfectionStatus::Infected);
        k = k + 1;
    }
    let ghost mut u: Seq<Seq<u64>> = Seq::new(n as nat, |a: int| Seq::new(n as nat, |b: int| 0u64));
    let mut i: usize = 0;
    while i < n
        invariant
            n == agents@.len() == o.len() == carriers@.len(),
            0 <= i <= n,
            radius == cfg.contact_radius,
            chance == cfg.transmission_chance,
            population_wf(o),
            forall|c: int| 0 <= c < n ==> #[trigger] carriers@[c] == (o[c].status
                == InfectionStatus::Infected),
            draws_fit(u, n as int),
            forall|k: int|
                0 <= k < n ==> #[trigger] agents@[k] == o[k].with_status(
                    status_after(o, u, radius, chance, k, i as int),
                ),
        decreases n - i,
    {
        if carriers[i] {
            let carrier = agents[i].position;
            assert(carrier == o[i as int].position);
            assert(o[i as int].wf());
            let mut j: usize = 0;
            while j < n
                invariant
                    n == agents@.len() == o.len() == carriers@.len(),
                    0 <= i < n,
                    0 <= j <= n,
                    radius == cfg.contact_radius,
                    chance == cfg.transmission_chance,
                    population_wf(o),
                    o[i as int].status == InfectionStatus::Infected,
                    carrier == o[i as int].position,
                    carrier.in_world(),
                    draws_fit(u, n as int),
                    forall|k: int|
                        0 <= k < j ==> #[trigger] agents@[k] == o[k].with_status(
                            status_after(o, u, radius, chance, k, i + 1),
                        ),
                    forall|k: int|
                        j <= k < n ==> #[trigger] agents@[k] == o[k].with_status(
                            status_after(o, u, radius, chance, k, i as int),
                        ),
                decreases n - j,
            {
                let other = agents[j];
                assert(o[j as int].wf());
                let ghost before = u;
                if other.status == InfectionStatus::Susceptible && within_contact(
                    carrier,
                    other.position,
                    radius,
                ) {
                    let sample = random_below(PROBABILITY_SCALE as u64);
                    expose(agents, cfg, carrier, j, sample);
                    proof {
                        u = u.update(i as int, u[i as int].update(j as int, sample));
                    }
                }
                proof {
                    assert forall|a: int, b: int| 0 <= a < n && 0 <= b < n implies #[trigger] u[a][b]
                        < PROBABILITY_SCALE by {
                        assert(before[a][b] < PROBABILITY_SCALE);
                    }
                    assert forall|a: int| 0 <= a < n implies (#[trigger] u[a]).len() == n by {
                        assert(before[a].len() == n);
                    }
                    lemma_caught_extend(o, u, radius, chance, j as int, i as int);
                    lemma_caught_frame(o, u, before, radius, chance, j as int, i as int);
                    assert forall|k: int| 0 <= k < n && k != j implies status_after(
                        o,
                        u,
                        radius,
                        chance,
                        k,
                        i + 1,
                    ) == status_after(o, before, radius, chance, k, i + 1) && status_after(
                        o,
                        u,
                        radius,
                        chance,
                        k,
                        i as int,
                    ) == status_after(o, before, radius, chance, k, i as int) by {
                        lemma_caught_frame(o, u, before, radius, chance, k, i + 1);
                        lemma_caught_frame(o, u, before, radius, chance, k, i as int);
                    }
                }
                j = j + 1;
            }
        } else {
            proof {
                assert forall|k: int| 0 <= k < n implies status_after(
                    o,
                    u,
                    radius,
                    chance,
                    k,
                    i + 1,
                ) == status_after(o, u, radius, chance, k, i as int) by {
                    lemma_caught_extend(o, u, radius, chance, k, i as int);
                }
            }
        }
        i = i + 1;
    }
    proof {
        let f = agents@;
        assert(pass_outcome(o, f, radius, chance, u)) by {
            reveal(pass_outcome);
        }
        assert forall|k: int| 0 <= k < n implies #[trigger] f[k].wf() by {
            assert(o[k].wf());
        }
        assert forall|k: int|
            0 <= k < n && #[trigger] f[k].status == InfectionStatus::Infected && o[k].status
                == InfectionStatus::Susceptible implies has_carrier(o, k, radius) by {
            let c = choose|c: int|
                0 <= c < n && (#[trigger] o[c]).status == InfectionStatus::Infected && in_contact(
                    o[c].position,
                    o[k].position,
                    radius,
                ) && u[c][k] < chance;
            assert(o[c].status != o[k].status);
        }
        assert forall|c: int, k: int|
            0 <= c < n && 0 <= k < n && o[c].status == InfectionStatus::Infected && o[k].status
                == InfectionStatus::Susceptible && chance == PROBABILITY_SCALE && in_contact(
                #[trigger] o[c].position,
                #[trigger] o[k].position,
                radius,
            ) implies f[k].status == InfectionStatus::Infected by {
            assert(u[c][k] < PROBABILITY_SCALE);
            assert(caught(o, u, radius, chance, k, n as int));
        }
    }
}

} // verus!
