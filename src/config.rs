use vstd::prelude::*;
use crate::geometry::{Point, WORLD_LIMIT};

verus! {

/// Probabilities are written in parts of this scale: `PROBABILITY_SCALE` is certainty.
pub const PROBABILITY_SCALE: u32 = 1000000;

/// Why a configuration was refused.
#[derive(Clone, Copy, Debug, PartialEq, Eq, Structural)]
pub enum ConfigError {
    NonPositivePopulation,
    NonPositiveSpeed,
    NonPositiveStepSize,
    NonPositiveArenaSide,
    ProbabilityOutOfRange,
    /// The arena or the wander step does not fit in the world's coordinates.
    OutsideWorld,
}

/// The settings of a run, fixed once it starts.
#[derive(Clone, Copy, Debug, PartialEq, Eq, Structural)]
pub struct SimConfig {
    pub population: usize,
    /// Units travelled per unit of time.
    pub speed: u64,
    /// Extent of a random re-target and of a boundary nudge.
    pub step_size: u64,
    pub arena_center: Point,
    pub arena_side: u64,
    pub contact_radius: u64,
    /// Chance, per tick and per infected agent in range, that a susceptible agent
    /// is infected, in parts of `PROBABILITY_SCALE`.
    pub transmission_chance: u32,
    /// Chance that an agent starts infected, in parts of `PROBABILITY_SCALE`.
    pub start_infected_chance: u32,
}

/// Smallest x (or y, with the centre's y) of the arena.
pub open spec fn arena_low(center: int, side: int) -> int {
    center - side / 2
}

/// Largest x (or y, with the centre's y) of the arena.
pub open spec fn arena_high(center: int, side: int) -> int {
    center + side / 2
}

pub open spec fn axis_in_world(center: int, side: int) -> bool {
    -WORLD_LIMIT <= arena_low(center, side) && arena_high(center, side) <= WORLD_LIMIT
}

/// The first rule, in the order of the checks, that the settings break.
pub open spec fn config_problem(
    population: usize,
    speed: u64,
    step_size: u64,
    arena_center: Point,
    arena_side: u64,
    transmission_chance: u32,
    start_infected_chance: u32,
) -> Option<ConfigError> {
    if population == 0 {
        Some(ConfigError::NonPositivePopulation)
    } else if speed == 0 {
        Some(ConfigError::NonPositiveSpeed)
    } else if step_size == 0 {
        Some(ConfigError::NonPositiveStepSize)
    } else if arena_side == 0 {
        Some(ConfigError::NonPositiveArenaSide)
    } else if transmission_chance > PROBABILITY_SCALE || start_infected_chance
        > PROBABILITY_SCALE {
        Some(ConfigError::ProbabilityOutOfRange)
    } else if step_size > WORLD_LIMIT || !axis_in_world(arena_center.x as int, arena_side as int)
        || !axis_in_world(arena_center.y as int, arena_side as int) {
        Some(ConfigError::OutsideWorld)
    } else {
        None
    }
}

impl SimConfig {
    pub open spec fn valid(self) -> bool {
        config_problem(
            self.population,
            self.speed,
            self.step_size,
            self.arena_center,
            self.arena_side,
            self.transmission_chance,
            self.start_infected_chance,
        ) is None
    }

    pub open spec fn min_x_spec(self) -> int {
        arena_low(self.arena_center.x as int, self.arena_side as int)
    }

    pub open spec fn max_x_spec(self) -> int {
        arena_high(self.arena_center.x as int, self.arena_side as int)
    }

    pub open spec fn min_y_spec(self) -> int {
        arena_low(self.arena_center.y as int, self.arena_side as int)
    }

    pub open spec fn max_y_spec(self) -> int {
        arena_high(self.arena_center.y as int, self.arena_side as int)
    }

    /// The point lies in the arena, edges included.
    pub open spec fn in_arena(self, p: Point) -> bool {
        &&& self.min_x_spec() <= p.x <= self.max_x_spec()
        &&& self.min_y_spec() <= p.y <= self.max_y_spec()
    }

    /// Checks the settings and returns them, or the first rule they break.
    pub fn new(
        population: usize,
        speed: u64,
        step_size: u64,
        arena_center: Point,
        arena_side: u64,
        contact_radius: u64,
        transmission_chance: u32,
        start_infected_chance: u32,
    ) -> (r: Result<SimConfig, ConfigError>)
        ensures
            match config_problem(
                population,
                speed,
                step_size,
                arena_center,
                arena_side,
                transmission_chance,
                start_infected_chance,
            ) {
                Some(e) => r == Err::<SimConfig, ConfigError>(e),
                None => r == Ok::<SimConfig, ConfigError>(
                    SimConfig {
                        population,
                        speed,
                        step_size,
                        arena_center,
                        arena_side,
                        contact_radius,
                        transmission_chance,
                        start_infected_chance,
                    },
                ),
            },
            r is Ok ==> r->Ok_0.valid(),
    {
        if population == 0 {
            return Err(ConfigError::NonPositivePopulation);
        }
        if speed == 0 {
            return Err(ConfigError::NonPositiveSpeed);
        }
        if step_size == 0 {
            return Err(ConfigError::NonPositiveStepSize);
        }
        if arena_side == 0 {
            return Err(ConfigError::NonPositiveArenaSide);
        }
        if transmission_chance > PROBABILITY_SCALE || start_infected_chance > PROBABILITY_SCALE {
            return Err(ConfigError::ProbabilityOutOfRange);
        }
        if step_size > WORLD_LIMIT as u64 || arena_side / 2 > WORLD_LIMIT as u64 {
            return Err(ConfigError::OutsideWorld);
        }
        let half: i64 = (arena_side / 2) as i64;
        if arena_center.x < -WORLD_LIMIT + half || arena_center.x > WORLD_LIMIT - half
            || arena_center.y < -WORLD_LIMIT + half || arena_center.y > WORLD_LIMIT - half {
            return Err(ConfigError::OutsideWorld);
        }
        Ok(
            SimConfig {
                population,
                speed,
                step_size,
                arena_center,
                arena_side,
                contact_radius,
                transmission_chance,
                start_infected_chance,
            },
        )
    }
}

} // verus!
