use vstd::prelude::*;
use crate::geometry::Point;

verus! {

/// Where an agent stands in the course of the disease.
#[derive(Clone, Copy, Debug, PartialEq, Eq, Structural)]
pub enum InfectionStatus {
    Susceptible,
    Infected,
    Recovered,
}

/// Steering intent: how fast an agent travels and where it is heading.
#[derive(Clone, Copy, Debug, PartialEq, Eq, Structural)]
pub struct DirectedMover {
    pub speed: u64,
    pub target_location: Point,
}

/// One simulated individual.
#[derive(Clone, Copy, Debug, PartialEq, Eq, Structural)]
pub struct Meeple {
    pub position: Point,
    pub status: InfectionStatus,
    pub mover: DirectedMover,
}

impl Meeple {
    /// Both points lie in the world and the speed is positive.
    pub open spec fn wf(self) -> bool {
        &&& self.position.in_world()
        &&& self.mover.target_location.in_world()
        &&& self.mover.speed > 0
    }

    pub open spec fn target(self) -> Point {
        self.mover.target_location
    }

    /// The same agent with another position.
    pub open spec fn at(self, p: Point) -> Meeple {
        Meeple { position: p, status: self.status, mover: self.mover }
    }

    /// The same agent with another target.
    pub open spec fn heading(self, t: Point) -> Meeple {
        Meeple {
            position: self.position,
            status: self.status,
            mover: DirectedMover { speed: self.mover.speed, target_location: t },
        }
    }

    /// The same agent with another status.
    pub open spec fn with_status(self, s: InfectionStatus) -> Meeple {
        Meeple { position: self.position, status: s, mover: self.mover }
    }
}

/// A status may stay as it is, or go from susceptible to infected; nothing else.
pub open spec fn status_step(before: InfectionStatus, after: InfectionStatus) -> bool {
    before == after || (before == InfectionStatus::Susceptible && after
        == InfectionStatus::Infected)
}

/// Every agent of the population is well formed.
pub open spec fn population_wf(agents: Seq<Meeple>) -> bool {
    forall|i: int| 0 <= i < agents.len() ==> #[trigger] agents[i].wf()
}

} // verus!
