use vstd::prelude::*;

verus! {

/// How tracker positions are integrated from acceleration.
#[derive(Debug, Clone, Copy, PartialEq, Eq, Structural)]
pub enum TrajectoryIntegrationMode {
    Rk4,
    Euler,
}

impl Default for TrajectoryIntegrationMode {
    fn default() -> (m: Self)
        ensures
            m == TrajectoryIntegrationMode::Rk4,
    {
        TrajectoryIntegrationMode::Rk4
    }
}

} // verus!
